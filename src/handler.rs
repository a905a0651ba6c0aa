//! The strategy that turns a placeholder and the data into the text that replaces it.
use vstd::prelude::*;
use vstd::string::StringExecFns;
use crate::text::{chars_of, dec_text, decimal, remove_all, remove_all_chars, string_of, starts_with, has_prefix};
use crate::value::{JsonValue, JsonView, Record, RecordView, find_key, rec_get, record_view, lemma_key_index_range};

verus! {

/// Turns placeholders into text. An implementation gives, for each method, a spec
/// function that states its result, so that the engine's contracts can speak of it.
pub trait ValueExt {
    /// The text of the placeholder `key` in a generated table row with zero-based index
    /// `index`, read from that row's flat record.
    spec fn table_text(&self, index: nat, key: Seq<char>, record: RecordView) -> Seq<char>;

    /// The text that replaces the text node `content` outside generated rows.
    spec fn plain_text(&self, content: Seq<char>, placeholders: RecordView) -> Seq<char>;

    fn replace_in_table(&self, index: usize, key: &str, placeholders: &Record) -> (r: String)
        ensures
            r@ == self.table_text(index as nat, key@, record_view(placeholders@)),
    ;

    fn replace(&self, content: &str, placeholders: &Record) -> (r: String)
        ensures
            r@ == self.plain_text(content@, record_view(placeholders@)),
    ;
}

/// What `str::to_uppercase` gives for a text.
pub uninterp spec fn upper_of(s: Seq<char>) -> Seq<char>;

/// Relies on `str::to_uppercase`: the upper-case form, which depends on the text alone;
/// an empty text stays empty.
#[verifier::external_body]
fn to_upper(s: &str) -> (r: String)
    ensures
        r@ == upper_of(s@),
        s@.len() == 0 ==> r@.len() == 0,
{
    s.to_uppercase()
}

/// How a value shows in text: strings as they are, null as nothing, numbers by their
/// shown text, booleans as `true` or `false`, arrays and objects by their JSON text.
pub open spec fn shown(v: JsonView) -> Seq<char> {
    match v {
        JsonView::Str(s) => s,
        JsonView::Null => Seq::empty(),
        JsonView::Number { shown, .. } => shown,
        JsonView::Bool(b) => if b {
            "true"@
        } else {
            "false"@
        },
        JsonView::Array(_, json) => json,
        JsonView::Object(_, json) => json,
    }
}

/// The text of `k` in `rec`: its value shown, or nothing where `k` is absent.
pub open spec fn lookup_text(rec: RecordView, k: Seq<char>) -> Seq<char> {
    match rec_get(rec, k) {
        Some(v) => shown(v),
        None => Seq::empty(),
    }
}

/// Whether `c` occurs in `s`.
pub open spec fn has_char(s: Seq<char>, c: char) -> bool {
    exists|i: int| 0 <= i < s.len() && s[i] == c
}

/// Whether `s` ends with `p`.
pub open spec fn ends_with(s: Seq<char>, p: Seq<char>) -> bool {
    p.len() <= s.len() && s.skip(s.len() - p.len()) == p
}

/// A key with its square brackets taken out.
pub open spec fn clean_key(k: Seq<char>) -> Seq<char> {
    remove_all(remove_all(k, "]"@), "["@)
}

/// The text of a placeholder in a table row: `^` in the key gives the value upper-cased,
/// `@` the value as it is (an image payload), `$index` the row's index, anything else
/// the value; the key is read without `[`, `]` and the modifier.
pub open spec fn default_table_text(index: nat, key: Seq<char>, record: RecordView) -> Seq<char> {
    let ck = clean_key(key);
    if has_char(ck, '^') {
        upper_of(lookup_text(record, remove_all(ck, "^"@)))
    } else if has_char(ck, '@') {
        lookup_text(record, remove_all(ck, "@"@))
    } else if ck == "$index"@ {
        dec_text(index)
    } else {
        lookup_text(record, ck)
    }
}

/// A whole text node `{{...}}` is looked up as a placeholder; any other text stays.
pub open spec fn default_plain_text(content: Seq<char>, placeholders: RecordView) -> Seq<char> {
    if starts_with(content, "{{"@) && ends_with(content, "}}"@) {
        default_table_text(0, content, placeholders)
    } else {
        content
    }
}

fn contains_char(s: &[char], c: char) -> (r: bool)
    ensures
        r == has_char(s@, c),
{
    let mut i: usize = 0;
    while i < s.len()
        invariant
            i <= s@.len(),
            forall|j: int| 0 <= j < i ==> s@[j] != c,
        decreases s@.len() - i,
    {
        if s[i] == c {
            return true;
        }
        i = i + 1;
    }
    false
}

fn has_suffix(s: &[char], p: &str) -> (r: bool)
    ensures
        r == ends_with(s@, p@),
{
    let pc = chars_of(p);
    if pc.len() > s.len() {
        return false;
    }
    let slen = s.len();
    let off = slen - pc.len();
    let mut i: usize = 0;
    while i < pc.len()
        invariant
            pc@ == p@,
            off + pc@.len() == s@.len(),
            slen == s@.len(),
            i <= pc@.len(),
            forall|j: int| 0 <= j < i ==> s@[off + j] == pc@[j],
        decreases pc@.len() - i,
    {
        if s[off + i] != pc[i] {
            assert(s@.skip(off as int)[i as int] != p@[i as int]);
            return false;
        }
        i = i + 1;
    }
    assert(s@.skip(off as int) =~= p@);
    true
}

/// How a value shows in text, as [`shown`] states.
pub fn shown_text(v: &JsonValue) -> (r: String)
    ensures
        r@ == shown(v@),
{
    match v {
        JsonValue::Str(s) => s.clone(),
        JsonValue::Null => String::new(),
        JsonValue::Number { shown, .. } => shown.clone(),
        JsonValue::Bool(b) => if *b {
            String::from_str("true")
        } else {
            String::from_str("false")
        },
        JsonValue::Array(_, json) => json.clone(),
        JsonValue::Object(_, json) => json.clone(),
    }
}

/// The text of key `k` in `rec`, as [`lookup_text`] states.
pub fn lookup(rec: &Record, k: &[char]) -> (r: String)
    ensures
        r@ == lookup_text(record_view(rec@), k@),
{
    let key = string_of(k);
    proof {
        lemma_key_index_range(record_view(rec@), k@);
    }
    match find_key(rec, &key) {
        Some(i) => shown_text(&rec[i].1),
        None => String::new(),
    }
}

/// The formatting used unless another is given.
#[derive(Debug, Clone, Copy, Default)]
pub struct DefaultValueHandler;

impl ValueExt for DefaultValueHandler {
    open spec fn table_text(&self, index: nat, key: Seq<char>, record: RecordView) -> Seq<char> {
        default_table_text(index, key, record)
    }

    open spec fn plain_text(&self, content: Seq<char>, placeholders: RecordView) -> Seq<char> {
        default_plain_text(content, placeholders)
    }

    fn replace_in_table(&self, index: usize, key: &str, placeholders: &Record) -> (r: String) {
        let kc = chars_of(key);
        let close = chars_of("]");
        let open = chars_of("[");
        let ck = remove_all_chars(remove_all_chars(kc.as_slice(), close.as_slice()).as_slice(), open.as_slice());
        if contains_char(ck.as_slice(), '^') {
            let caret = chars_of("^");
            let k = remove_all_chars(ck.as_slice(), caret.as_slice());
            let v = lookup(placeholders, k.as_slice());
            to_upper(v.as_str())
        } else if contains_char(ck.as_slice(), '@') {
            let at = chars_of("@");
            let k = remove_all_chars(ck.as_slice(), at.as_slice());
            lookup(placeholders, k.as_slice())
        } else {
            let cks = string_of(ck.as_slice());
            let idx = String::from_str("$index");
            if cks == idx {
                decimal(index as u64)
            } else {
                lookup(placeholders, ck.as_slice())
            }
        }
    }

    fn replace(&self, content: &str, placeholders: &Record) -> (r: String) {
        let c = chars_of(content);
        if has_prefix(c.as_slice(), "{{") && has_suffix(c.as_slice(), "}}") {
            return self.replace_in_table(0, content, placeholders);
        }
        String::from_str(content)
    }
}

} // verus!
