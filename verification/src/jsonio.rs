//! The codec at the engine's edge: JSON text to stored values and back,
//! through serde_json. The stored value type of a table read from a real
//! directory is `serde_json::Value`; what a file's text means is named by
//! [`json_parse`], and the engine's pretty rendering of a value by
//! [`json_pretty`]. An embedding program builds a [`Directory`] image
//! from raw file texts with [`build_directory`] and renders file
//! contents back to text with [`render_content`].

use vstd::prelude::*;
use crate::fsdir::{ContentModel, Directory, FileContent, FsNode, NodeModel};

verus! {

#[verifier::external_type_specification]
#[verifier::external_body]
pub struct ExValue(serde_json::Value);

/// The value, if any, that a piece of JSON text parses to. Parsing is a
/// function of the characters alone.
pub uninterp spec fn json_parse(s: Seq<char>) -> Option<serde_json::Value>;

/// The pretty-printed JSON text of a value: a function of the value
/// alone.
pub uninterp spec fn json_pretty(v: serde_json::Value) -> Seq<char>;

/// Relies on serde_json::from_str: whether the text parses, and to which
/// value, depends on the text alone.
#[verifier::external_body]
fn parse_json(s: &str) -> (r: Option<serde_json::Value>)
    ensures
        r == json_parse(s@),
{
    serde_json::from_str::<serde_json::Value>(s).ok()
}

/// Relies on serde_json::to_string_pretty: rendering a `Value` cannot
/// fail (its `Serialize` never errs and its maps have string keys), and
/// the rendered text depends on the value alone. A successful re-parse
/// of that text (serde_json::from_str, with the `float_roundtrip`
/// feature for exact floats) yields the same value — but success is not
/// promised, because the parser refuses nesting past its recursion
/// limit while the renderer has no such bound.
#[verifier::external_body]
fn render_json(v: &serde_json::Value) -> (r: Option<String>)
    ensures
        r is Some,
        r matches Some(s) ==> s@ == json_pretty(*v) && (json_parse(json_pretty(*v)) is Some
            ==> json_parse(json_pretty(*v)) == Some(*v)),
{
    serde_json::to_string_pretty(v).ok()
}

/// Classify one file's raw text: a file whose text parses carries the
/// parsed value; any other file is opaque and its text is carried
/// through untouched.
pub fn content_from_text(text: String) -> (c: FileContent<serde_json::Value>)
    ensures
        match json_parse(text@) {
            Some(v) => c == FileContent::<serde_json::Value>::Value(v),
            None => c == FileContent::<serde_json::Value>::Opaque(text),
        },
{
    match parse_json(text.as_str()) {
        Some(v) => FileContent::Value(v),
        None => FileContent::Opaque(text),
    }
}

/// The text to write for one file content: the pretty rendering of a
/// decoded value, or an opaque file's original text. The rendering of a
/// value parses back to that value whenever it parses at all; a value
/// nested past the parser's recursion limit renders to text the parser
/// refuses.
pub fn render_content(c: &FileContent<serde_json::Value>) -> (r: String)
    ensures
        c@ matches ContentModel::Opaque(t) ==> r@ == t,
        c@ matches ContentModel::Value(v) ==> r@ == json_pretty(v) && (json_parse(r@) is Some
            ==> json_parse(r@) == Some(v)),
{
    match c {
        FileContent::Value(v) => {
            let rendered = render_json(v);
            proof {
                assert(c@ matches ContentModel::Value(w) && w == *v);
            }
            match rendered {
                Some(s) => s,
                None => {
                    proof {
                        assert(false);
                    }
                    String::new()
                },
            }
        },
        FileContent::Opaque(s) => s.clone(),
    }
}

/// The directory image described by a raw listing: entry names mapped,
/// later entries overriding earlier ones of the same name, to a
/// subdirectory where no text is given and otherwise to a file holding
/// what the text parses to.
pub open spec fn listing_model(l: Seq<(String, Option<String>)>) -> Map<
    Seq<char>,
    NodeModel<serde_json::Value>,
>
    decreases l.len(),
{
    if l.len() == 0 {
        Map::empty()
    } else {
        listing_model(l.drop_last()).insert(
            l.last().0@,
            match l.last().1 {
                None => NodeModel::Subdir,
                Some(text) => NodeModel::File(
                    match json_parse(text@) {
                        Some(v) => ContentModel::Value(v),
                        None => ContentModel::Opaque(text@),
                    },
                ),
            },
        )
    }
}

/// Build the directory image of a raw listing, as an embedding program
/// reads it from a real directory: each entry a name beside the file's
/// whole text, or beside nothing for a subdirectory.
pub fn build_directory(listing: Vec<(String, Option<String>)>) -> (d: Directory<serde_json::Value>)
    ensures
        d.wf(),
        d@ == listing_model(listing@),
{
    let mut d = Directory::<serde_json::Value>::new();
    let n = listing.len();
    let mut i: usize = 0;
    proof {
        assert(listing@.take(0) =~= Seq::<(String, Option<String>)>::empty());
    }
    while i < n
        invariant
            i <= n,
            n == listing@.len(),
            d.wf(),
            d@ == listing_model(listing@.take(i as int)),
        decreases n - i,
    {
        let entry = &listing[i];
        let node = match &entry.1 {
            Some(text) => FsNode::File(content_from_text(text.clone())),
            None => FsNode::Subdir,
        };
        d.put_entry(entry.0.as_str(), node);
        proof {
            let pre = listing@.take(i as int);
            let cur = listing@.take(i as int + 1);
            assert(cur.drop_last() =~= pre);
            assert(cur.last() == listing@[i as int]);
        }
        i = i + 1;
    }
    proof {
        assert(listing@.take(n as int) =~= listing@);
    }
    d
}

} // verus!
