//! The encoding descriptor attached to each bus message: a primary
//! media-type token, optionally followed by a schema token, separated by
//! `;`. The recorder recognizes two encodings — binary records with an
//! external schema, and self-describing structured text — and drops
//! everything else.

use vstd::prelude::*;
use crate::textutil::{find_char, spec_find_char, str_eq, substring};

verus! {

/// The primary token of a descriptor: everything before the first `;`, or
/// the whole descriptor when there is none.
pub open spec fn spec_primary(e: Seq<char>) -> Seq<char> {
    match spec_find_char(e, ';') {
        None => e,
        Some(i) => e.take(i),
    }
}

/// The secondary token of a descriptor: present only when a `;` occurs, and
/// then everything between the first `;` and the second one (or the end).
pub open spec fn spec_secondary(e: Seq<char>) -> Option<Seq<char>> {
    match spec_find_char(e, ';') {
        None => None,
        Some(i) => {
            let rest = e.skip(i + 1);
            match spec_find_char(rest, ';') {
                None => Some(rest),
                Some(j) => Some(rest.take(j)),
            }
        },
    }
}

/// What the recorder makes of a descriptor.
pub enum EncodingClass {
    /// A binary-record payload; its schema must be resolved externally
    /// through the carried dotted schema token.
    BinaryRecord { schema_token: String },
    /// A self-describing structured-text payload; its schema is inferred
    /// from the payload itself.
    StructuredText,
    /// Anything else; such messages are dropped.
    Unknown,
}

/// The classification of a descriptor: binary records need both their media
/// type and a schema token; structured text needs only its media type; all
/// other descriptors are unknown.
pub open spec fn spec_classify(e: Seq<char>) -> EncodingClass {
    // Only the variant is classified here; the carried token is pinned
    // separately through `spec_secondary`.
    if spec_primary(e) == "application/cdr"@ && spec_secondary(e) is Some {
        EncodingClass::BinaryRecord { schema_token: arbitrary() }
    } else if spec_primary(e) == "application/json"@ {
        EncodingClass::StructuredText
    } else {
        EncodingClass::Unknown
    }
}

/// Splits the descriptor and classifies it.
pub fn classify_encoding(e: &str) -> (r: EncodingClass)
    ensures
        r is BinaryRecord <==> spec_classify(e@) is BinaryRecord,
        r is StructuredText <==> spec_classify(e@) is StructuredText,
        r is Unknown <==> spec_classify(e@) is Unknown,
        r matches EncodingClass::BinaryRecord { schema_token } ==> Some(schema_token@)
            == spec_secondary(e@),
{
    proof {
        reveal_strlit("application/cdr");
        reveal_strlit("application/json");
    }
    let n: usize = e.unicode_len();
    let (primary, secondary): (String, Option<String>) = match find_char(e, ';') {
        None => (e.to_owned(), None),
        Some(i) => {
            proof {
                crate::textutil::lemma_find_char_props(e@, ';');
            }
            let p = substring(e, 0, i);
            let rest = substring(e, i + 1, n);
            let s = match find_char(rest.as_str(), ';') {
                None => rest,
                Some(j) => {
                    proof {
                        crate::textutil::lemma_find_char_props(rest@, ';');
                    }
                    substring(rest.as_str(), 0, j)
                },
            };
            (p, Some(s))
        },
    };
    if str_eq(primary.as_str(), "application/cdr") {
        match secondary {
            Some(token) => EncodingClass::BinaryRecord { schema_token: token },
            None => EncodingClass::Unknown,
        }
    } else if str_eq(primary.as_str(), "application/json") {
        EncodingClass::StructuredText
    } else {
        EncodingClass::Unknown
    }
}

/// The relative location of an externally maintained schema definition:
/// `<root>/<package>/<name>.msg`, where the package is everything before
/// the token's first `.` and the name everything between the first `.` and
/// the second one (or the end). A token without a `.` resolves to nothing.
pub open spec fn spec_schema_file_path(root: Seq<char>, token: Seq<char>) -> Option<Seq<char>> {
    match spec_find_char(token, '.') {
        None => None,
        Some(i) => {
            let pkg = token.take(i);
            let rest = token.skip(i + 1);
            let name = match spec_find_char(rest, '.') {
                None => rest,
                Some(j) => rest.take(j),
            };
            Some(root + "/"@ + pkg + "/"@ + name + ".msg"@)
        },
    }
}

/// Builds the path of the schema definition file for a dotted schema token.
pub fn schema_file_path(root: &str, token: &str) -> (r: Option<String>)
    ensures
        match r {
            Some(p) => spec_schema_file_path(root@, token@) == Some(p@),
            None => spec_schema_file_path(root@, token@) is None,
        },
{
    let n: usize = token.unicode_len();
    match find_char(token, '.') {
        None => None,
        Some(i) => {
            proof {
                crate::textutil::lemma_find_char_props(token@, '.');
            }
            let pkg = substring(token, 0, i);
            let rest = substring(token, i + 1, n);
            let rest_len: usize = rest.as_str().unicode_len();
            let name = match find_char(rest.as_str(), '.') {
                None => rest,
                Some(j) => {
                    proof {
                        crate::textutil::lemma_find_char_props(rest@, '.');
                    }
                    substring(rest.as_str(), 0, j)
                },
            };
            let mut p = root.to_owned();
            p.append("/");
            p.append(pkg.as_str());
            p.append("/");
            p.append(name.as_str());
            p.append(".msg");
            proof {
                assert(p@ =~= (spec_schema_file_path(root@, token@))->0);
            }
            Some(p)
        },
    }
}

/// The descriptor's secondary token, when it carries one.
pub fn encoding_secondary(e: &str) -> (r: Option<String>)
    ensures
        match r {
            Some(t) => spec_secondary(e@) == Some(t@),
            None => spec_secondary(e@) is None,
        },
{
    let n: usize = e.unicode_len();
    match find_char(e, ';') {
        None => None,
        Some(i) => {
            proof {
                crate::textutil::lemma_find_char_props(e@, ';');
            }
            let rest = substring(e, i + 1, n);
            match find_char(rest.as_str(), ';') {
                None => Some(rest),
                Some(j) => {
                    proof {
                        crate::textutil::lemma_find_char_props(rest@, ';');
                    }
                    Some(substring(rest.as_str(), 0, j))
                },
            }
        },
    }
}

} // verus!
