//! Document-kind detection: an optional fenced header names the document
//! kind; everything else is a plain note.
use vstd::prelude::*;
use vstd::string::*;
use crate::strutil::{find_sub, lemma_find_none, lemma_find_unique, spec_find};

verus! {

/// The string value of the top-level `kind` field of a JSON text, when the
/// text parses to an object carrying one. A function of the text alone.
pub uninterp spec fn json_kind_of(text: Seq<char>) -> Option<Seq<char>>;

/// Relies on serde_json's `from_str`, `Value::get` and `Value::as_str`:
/// parsing is deterministic in the text, and the chain yields the string
/// under the `kind` key exactly when the text is valid JSON whose top level
/// is an object with a string at that key.
#[verifier::external_body]
fn extract_kind_field(text: &str) -> (r: Option<String>)
    ensures
        r is Some <==> json_kind_of(text@) is Some,
        r is Some ==> r.unwrap()@ == json_kind_of(text@).unwrap(),
{
    match serde_json::from_str::<serde_json::Value>(text) {
        Ok(v) => v.get("kind").and_then(|k| k.as_str()).map(|s| s.to_string()),
        Err(_) => None,
    }
}

/// The kind of a document: the `kind` string of the first
/// ```` ```nexus-doc ```` fenced JSON header, when the fence is closed by a
/// newline and three backticks and the enclosed text carries one; otherwise
/// `note`.
pub open spec fn spec_detect_kind(md: Seq<char>) -> Seq<char> {
    match spec_find(md, "```nexus-doc"@) {
        None => "note"@,
        Some(start) => {
            let after = md.skip(start + "```nexus-doc"@.len());
            match spec_find(after, "\n```"@) {
                None => "note"@,
                Some(end) => match json_kind_of(after.take(end)) {
                    Some(k) => k,
                    None => "note"@,
                },
            }
        },
    }
}

fn note_kind() -> (r: String)
    ensures
        r@ == "note"@,
{
    let mut s = String::new();
    s.append("note");
    proof {
        assert(s@ =~= "note"@);
    }
    s
}

/// Scans the document for its kind header.
pub fn detect_kind(markdown: &str) -> (r: String)
    ensures
        r@ == spec_detect_kind(markdown@),
{
    let n = markdown.unicode_len();
    let open_pat = "```nexus-doc";
    let close_pat = "\n```";
    match find_sub(markdown, open_pat) {
        None => {
            proof {
                lemma_find_none(markdown@, open_pat@);
            }
            note_kind()
        },
        Some(start) => {
            proof {
                lemma_find_unique(markdown@, open_pat@, start as int);
            }
            let plen = open_pat.unicode_len();
            let after = markdown.substring_char(start + plen, n);
            proof {
                assert(after@ =~= markdown@.skip(start as int + open_pat@.len()));
            }
            match find_sub(after, close_pat) {
                None => {
                    proof {
                        lemma_find_none(after@, close_pat@);
                    }
                    note_kind()
                },
                Some(end) => {
                    proof {
                        lemma_find_unique(after@, close_pat@, end as int);
                    }
                    let json_text = after.substring_char(0, end);
                    proof {
                        assert(json_text@ =~= after@.take(end as int));
                    }
                    match extract_kind_field(json_text) {
                        Some(k) => k,
                        None => note_kind(),
                    }
                },
            }
        },
    }
}

} // verus!
