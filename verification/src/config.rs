//! Explicit configuration for the recorder: the parsed command-line values
//! and the accessors the rest of the library reads them through. The
//! configuration is constructed once at startup and passed by reference;
//! there is no global mutable state.

use vstd::prelude::*;
use crate::textutil::{find_char, spec_find_char, str_eq, substring};

verus! {

/// The command-line values the recorder is started with. Parsing the actual
/// process arguments happens outside the library; this struct carries the
/// already-parsed result.
pub struct Args {
    /// Turns all log categories up to Debug.
    pub verbose: bool,
    /// The directory recordings are stored under.
    pub recorder_path: String,
    /// The directory message schema definition files are stored under.
    pub schema_path: Option<String>,
    /// Bus configuration entries, each of the form `KEY=VALUE`.
    pub zkey: Vec<String>,
}

/// The recorder's configuration, constructed once from [`Args`].
pub struct Config {
    pub args: Args,
}

/// Constructs the configuration from already-parsed arguments.
pub fn init_with(args: Args) -> (c: Config)
    ensures
        c.args == args,
{
    Config { args }
}

/// Accessor to the parsed arguments.
pub fn args(c: &Config) -> (r: &Args)
    ensures
        r == &c.args,
{
    &c.args
}

/// Whether the verbosity flag was used.
pub fn is_verbose(c: &Config) -> (r: bool)
    ensures
        r == c.args.verbose,
{
    c.args.verbose
}

/// The configured recording directory, as given.
pub fn recorder_path(c: &Config) -> (r: String)
    ensures
        r@ == c.args.recorder_path@,
{
    c.args.recorder_path.clone()
}

/// The configured schema root directory, when one was given.
pub fn schema_path(c: &Config) -> (r: Option<String>)
    ensures
        match r {
            Some(p) => c.args.schema_path matches Some(q) && p@ == q@,
            None => c.args.schema_path is None,
        },
{
    match &c.args.schema_path {
        Some(p) => Some(p.clone()),
        None => None,
    }
}

/// An association list from keys to values, with at most one entry per key.
/// Stands in for a hash map so that its contents stay fully specified.
pub struct KeyValueMap {
    entries: Vec<(String, String)>,
}

/// Index of the first entry of `m` whose key is `k`.
pub open spec fn spec_kv_find(m: Seq<(Seq<char>, Seq<char>)>, k: Seq<char>) -> Option<int>
    decreases m.len(),
{
    if m.len() == 0 {
        None
    } else if m[0].0 == k {
        Some(0)
    } else {
        match spec_kv_find(m.drop_first(), k) {
            None => None,
            Some(i) => Some(i + 1),
        }
    }
}

/// The value bound to `k` in `m`, if any.
pub open spec fn spec_kv_lookup(m: Seq<(Seq<char>, Seq<char>)>, k: Seq<char>) -> Option<Seq<char>> {
    match spec_kv_find(m, k) {
        None => None,
        Some(i) => Some(m[i].1),
    }
}

/// Binding `k` to `v`: an existing entry for `k` is removed, and the new
/// binding goes to the end.
pub open spec fn spec_kv_insert(
    m: Seq<(Seq<char>, Seq<char>)>,
    k: Seq<char>,
    v: Seq<char>,
) -> Seq<(Seq<char>, Seq<char>)> {
    match spec_kv_find(m, k) {
        None => m.push((k, v)),
        Some(i) => m.remove(i).push((k, v)),
    }
}

proof fn lemma_kv_find_at(m: Seq<(Seq<char>, Seq<char>)>, k: Seq<char>, i: int)
    requires
        0 <= i <= m.len(),
        forall|j: int| 0 <= j < i ==> m[j].0 != k,
    ensures
        i < m.len() && m[i].0 == k ==> spec_kv_find(m, k) == Some(i),
        i == m.len() ==> spec_kv_find(m, k) is None,
    decreases i,
{
    if i > 0 {
        let t = m.drop_first();
        assert(forall|j: int| 0 <= j < i - 1 ==> t[j] == m[j + 1]);
        lemma_kv_find_at(t, k, i - 1);
    }
}

impl View for KeyValueMap {
    type V = Seq<(Seq<char>, Seq<char>)>;

    closed spec fn view(&self) -> Seq<(Seq<char>, Seq<char>)> {
        Seq::new(self.entries@.len(), |i: int| (self.entries@[i].0@, self.entries@[i].1@))
    }
}

impl KeyValueMap {
    /// The empty map.
    pub fn new() -> (m: KeyValueMap)
        ensures
            m@ == Seq::<(Seq<char>, Seq<char>)>::empty(),
    {
        let m = KeyValueMap { entries: Vec::new() };
        proof {
            assert(m@ =~= Seq::<(Seq<char>, Seq<char>)>::empty());
        }
        m
    }

    /// Binds `k` to `v`, replacing an earlier binding of `k` if one exists.
    pub fn insert(&mut self, k: String, v: String)
        ensures
            final(self)@ == spec_kv_insert(old(self)@, k@, v@),
    {
        let n: usize = self.entries.len();
        let mut i: usize = 0;
        while i < n
            invariant
                0 <= i <= n,
                n == self.entries@.len(),
                forall|j: int| 0 <= j < i ==> #[trigger] self.entries@[j].0@ != k@,
                *self == *old(self),
            decreases n - i,
        {
            if str_eq(self.entries[i].0.as_str(), k.as_str()) {
                proof {
                    lemma_kv_find_at(old(self)@, k@, i as int);
                }
                self.entries.remove(i);
                self.entries.push((k, v));
                proof {
                    assert(self@ =~= spec_kv_insert(old(self)@, k@, v@));
                }
                return;
            }
            i = i + 1;
        }
        proof {
            lemma_kv_find_at(old(self)@, k@, n as int);
        }
        self.entries.push((k, v));
        proof {
            assert(self@ =~= spec_kv_insert(old(self)@, k@, v@));
        }
    }

    /// The value bound to `k`, if any.
    pub fn get(&self, k: &str) -> (r: Option<&String>)
        ensures
            match r {
                Some(v) => spec_kv_lookup(self@, k@) == Some(v@),
                None => spec_kv_lookup(self@, k@) is None,
            },
    {
        let n: usize = self.entries.len();
        let mut i: usize = 0;
        while i < n
            invariant
                0 <= i <= n,
                n == self.entries@.len(),
                forall|j: int| 0 <= j < i ==> #[trigger] self.entries@[j].0@ != k@,
            decreases n - i,
        {
            if str_eq(self.entries[i].0.as_str(), k) {
                proof {
                    lemma_kv_find_at(self@, k@, i as int);
                }
                return Some(&self.entries[i].1);
            }
            i = i + 1;
        }
        proof {
            lemma_kv_find_at(self@, k@, n as int);
        }
        None
    }

    /// The bound pairs, in order.
    pub fn to_pairs(&self) -> (r: Vec<(String, String)>)
        ensures
            Seq::new(r@.len(), |i: int| (r@[i].0@, r@[i].1@)) == self@,
    {
        let n: usize = self.entries.len();
        let mut out: Vec<(String, String)> = Vec::new();
        let mut i: usize = 0;
        while i < n
            invariant
                0 <= i <= n,
                n == self.entries@.len(),
                out@.len() == i,
                forall|j: int|
                    0 <= j < i ==> (#[trigger] out@[j]).0@ == self.entries@[j].0@ && out@[j].1@
                        == self.entries@[j].1@,
            decreases n - i,
        {
            out.push((self.entries[i].0.clone(), self.entries[i].1.clone()));
            i = i + 1;
        }
        proof {
            assert(Seq::new(out@.len(), |i: int| (out@[i].0@, out@[i].1@)) =~= self@);
        }
        out
    }

    /// How many keys are bound.
    pub fn len(&self) -> (r: usize)
        ensures
            r == self@.len(),
    {
        self.entries.len()
    }
}

/// What one `KEY=VALUE` argument contributes: everything before the first
/// `=` is the key, everything after it the value; an argument without `=`
/// contributes nothing.
pub open spec fn spec_zkey_step(
    m: Seq<(Seq<char>, Seq<char>)>,
    entry: Seq<char>,
) -> Seq<(Seq<char>, Seq<char>)> {
    match spec_find_char(entry, '=') {
        None => m,
        Some(i) => spec_kv_insert(m, entry.take(i), entry.skip(i + 1)),
    }
}

/// The map built from the `KEY=VALUE` arguments, processed left to right.
pub open spec fn spec_zkey_map(entries: Seq<Seq<char>>) -> Seq<(Seq<char>, Seq<char>)>
    decreases entries.len(),
{
    if entries.len() == 0 {
        Seq::empty()
    } else {
        spec_zkey_step(spec_zkey_map(entries.drop_last()), entries.last())
    }
}

/// The bus configuration key-value pairs, from the `KEY=VALUE` arguments.
/// A malformed argument (no `=`) is skipped; a repeated key keeps its last
/// value.
pub fn zkey_config(c: &Config) -> (m: KeyValueMap)
    ensures
        m@ == spec_zkey_map(c.args.zkey.deep_view()),
{
    let mut m = KeyValueMap::new();
    let n: usize = c.args.zkey.len();
    let mut i: usize = 0;
    while i < n
        invariant
            0 <= i <= n,
            n == c.args.zkey@.len(),
            m@ == spec_zkey_map(c.args.zkey.deep_view().take(i as int)),
        decreases n - i,
    {
        let entry: &String = &c.args.zkey[i];
        let len: usize = entry.as_str().unicode_len();
        match find_char(entry.as_str(), '=') {
            Some(eq) => {
                proof {
                    crate::textutil::lemma_find_char_props(entry@, '=');
                }
                let key = substring(entry.as_str(), 0, eq);
                let value = substring(entry.as_str(), eq + 1, len);
                m.insert(key, value);
            }
            None => {}
        }
        proof {
            let all = c.args.zkey.deep_view();
            assert(all.take(i + 1).drop_last() =~= all.take(i as int));
            assert(all.take(i + 1).last() == entry@);
        }
        i = i + 1;
    }
    proof {
        assert(c.args.zkey.deep_view().take(n as int) =~= c.args.zkey.deep_view());
    }
    m
}

} // verus!
