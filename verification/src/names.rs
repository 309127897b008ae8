//! File names: splitting a name into its base (the record key) and its
//! extension, and building the names the engine creates.
//!
//! A name has an extension when it holds a dot; the extension is
//! everything after the last dot, the base everything before it. A name
//! without a dot has no extension and is its own base.

use vstd::prelude::*;

verus! {

/// The extension borne by files the engine creates: `json`.
pub open spec fn json_ext() -> Seq<char> {
    "json"@
}

/// The suffix appended to a key to name its backing file: `.json`.
pub open spec fn json_suffix() -> Seq<char> {
    ".json"@
}

/// The extension of a soft-deleted file: `json_soft_delete`.
pub open spec fn soft_ext() -> Seq<char> {
    "json_soft_delete"@
}

/// The suffix appended to a name on soft deletion: `.json_soft_delete`.
pub open spec fn soft_suffix() -> Seq<char> {
    ".json_soft_delete"@
}

/// `i` is the position of the last dot of `s`.
pub open spec fn is_last_dot(s: Seq<char>, i: int) -> bool {
    &&& 0 <= i < s.len()
    &&& s[i] == '.'
    &&& forall|j: int| i < j < s.len() ==> s[j] != '.'
}

/// Whether the name `s` has an extension.
pub open spec fn has_ext(s: Seq<char>) -> bool {
    exists|i: int| is_last_dot(s, i)
}

/// The position of the last dot of `s`, when `s` has an extension.
pub open spec fn last_dot(s: Seq<char>) -> int {
    choose|i: int| is_last_dot(s, i)
}

/// The base of the name `s`: everything before the last dot, or all of
/// `s` when it has no extension. The base of a file's name is the key of
/// the record read from it.
pub open spec fn base_of(s: Seq<char>) -> Seq<char> {
    if has_ext(s) {
        s.subrange(0, last_dot(s))
    } else {
        s
    }
}

/// The extension of the name `s`: everything after the last dot, or
/// nothing when `s` has none.
pub open spec fn ext_of(s: Seq<char>) -> Option<Seq<char>> {
    if has_ext(s) {
        Some(s.subrange(last_dot(s) + 1, s.len() as int))
    } else {
        None
    }
}

/// At most one position can be the last dot.
pub proof fn lemma_last_dot_unique(s: Seq<char>, i: int, j: int)
    requires
        is_last_dot(s, i),
        is_last_dot(s, j),
    ensures
        i == j,
{
    if i < j {
        assert(s[j] != '.');
    }
    if j < i {
        assert(s[i] != '.');
    }
}

/// Appending a dot and a dot-free extension to a name makes a name that
/// splits back into exactly those two parts.
pub proof fn lemma_split_suffix(k: Seq<char>, ext: Seq<char>)
    requires
        forall|j: int| 0 <= j < ext.len() ==> ext[j] != '.',
    ensures
        has_ext(k + seq!['.'] + ext),
        base_of(k + seq!['.'] + ext) == k,
        ext_of(k + seq!['.'] + ext) == Some(ext),
{
    let s = k + seq!['.'] + ext;
    let d = k.len() as int;
    assert(s[d] == '.');
    assert(forall|j: int| d < j < s.len() ==> s[j] == ext[j - d - 1] && s[j] != '.');
    assert(is_last_dot(s, d));
    let i = last_dot(s);
    lemma_last_dot_unique(s, i, d);
    assert(s.subrange(0, d) =~= k);
    assert(s.subrange(d + 1, s.len() as int) =~= ext);
}

/// A key followed by `.json` splits back into the key and `json`.
pub proof fn lemma_json_name(k: Seq<char>)
    ensures
        has_ext(k + json_suffix()),
        base_of(k + json_suffix()) == k,
        ext_of(k + json_suffix()) == Some(json_ext()),
{
    reveal_strlit(".json");
    reveal_strlit("json");
    assert(json_suffix() =~= seq!['.'] + json_ext());
    assert(k + json_suffix() =~= k + seq!['.'] + json_ext());
    lemma_split_suffix(k, json_ext());
}

/// A name followed by `.json_soft_delete` splits back into the name and
/// the soft-delete extension.
pub proof fn lemma_soft_name(k: Seq<char>)
    ensures
        has_ext(k + soft_suffix()),
        base_of(k + soft_suffix()) == k,
        ext_of(k + soft_suffix()) == Some(soft_ext()),
{
    reveal_strlit(".json_soft_delete");
    reveal_strlit("json_soft_delete");
    assert(soft_suffix() =~= seq!['.'] + soft_ext());
    assert(k + soft_suffix() =~= k + seq!['.'] + soft_ext());
    lemma_split_suffix(k, soft_ext());
}

/// A name with an extension is its base, a dot, and its extension, put
/// back together.
pub proof fn lemma_recompose(s: Seq<char>)
    requires
        has_ext(s),
    ensures
        ext_of(s) matches Some(e) && s == base_of(s) + seq!['.'] + e,
{
    let d = last_dot(s);
    assert(is_last_dot(s, d));
    assert(s =~= s.subrange(0, d) + seq![s[d]] + s.subrange(d + 1, s.len() as int));
}

/// Two names that share a base and an extension are the same name.
pub proof fn lemma_name_determined(s1: Seq<char>, s2: Seq<char>)
    requires
        has_ext(s1),
        has_ext(s2),
        base_of(s1) == base_of(s2),
        ext_of(s1) == ext_of(s2),
    ensures
        s1 == s2,
{
    lemma_recompose(s1);
    lemma_recompose(s2);
}

/// Find the position of the last dot of `name`.
pub fn find_last_dot(name: &str) -> (r: Option<usize>)
    ensures
        match r {
            Some(i) => is_last_dot(name@, i as int),
            None => !has_ext(name@),
        },
{
    let n = name.unicode_len();
    let mut j: usize = n;
    while j > 0
        invariant
            j <= n,
            n == name@.len(),
            forall|t: int| j <= t < n ==> name@[t] != '.',
        decreases j,
    {
        let c = name.get_char(j - 1);
        if c == '.' {
            return Some(j - 1);
        }
        j = j - 1;
    }
    None
}

/// The base of `name`: the key a record read from a file of that name
/// gets.
pub fn base_name(name: &str) -> (r: String)
    ensures
        r@ == base_of(name@),
{
    match find_last_dot(name) {
        Some(i) => {
            proof {
                lemma_last_dot_unique(name@, last_dot(name@), i as int);
            }
            name.substring_char(0, i).to_owned()
        },
        None => name.to_owned(),
    }
}

/// Whether the extension of `name` is exactly `json`.
pub fn ext_is_json(name: &str) -> (r: bool)
    ensures
        r == (ext_of(name@) == Some(json_ext())),
{
    match find_last_dot(name) {
        Some(i) => {
            proof {
                lemma_last_dot_unique(name@, last_dot(name@), i as int);
            }
            let n = name.unicode_len();
            let ext = name.substring_char(i + 1, n).to_owned();
            let expected = "json".to_owned();
            ext == expected
        },
        None => false,
    }
}

/// Whether the extension of `name` is exactly `json_soft_delete`.
pub fn ext_is_soft(name: &str) -> (r: bool)
    ensures
        r == (ext_of(name@) == Some(soft_ext())),
{
    match find_last_dot(name) {
        Some(i) => {
            proof {
                lemma_last_dot_unique(name@, last_dot(name@), i as int);
            }
            let n = name.unicode_len();
            let ext = name.substring_char(i + 1, n).to_owned();
            let expected = "json_soft_delete".to_owned();
            ext == expected
        },
        None => false,
    }
}

/// The name of the backing file of the key `k`: the key followed by
/// `.json`.
pub fn json_name(k: &str) -> (r: String)
    ensures
        r@ == k@ + json_suffix(),
{
    k.to_owned().concat(".json")
}

/// The name a soft-deleted record's copy is written under: the chosen
/// name followed by `.json_soft_delete`.
pub fn soft_name(k: &str) -> (r: String)
    ensures
        r@ == k@ + soft_suffix(),
{
    k.to_owned().concat(".json_soft_delete")
}

} // verus!
