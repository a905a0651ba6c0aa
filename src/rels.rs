//! The package's relationship document: ids for new images and the rewritten document.
use vstd::prelude::*;
use vstd::string::{StrSliceExecFns, StringExecFns, StringSliceAdditionalSpecFns};
use vstd::utf8::{decode_utf8, encode_utf8, valid_utf8, encode_utf8_decode_utf8};
use crate::buffer::{
    bytes_clone, bytes_mut_extend, bytes_mut_freeze, bytes_mut_new, bytes_mut_view, bytes_slice,
    bytes_view,
};
use vstd::slice::slice_subrange;
use bytes::Bytes;
use crate::text::{dec_text, decimal, parse_decimal_u32, parse_u32};

verus! {

/// The relationship type of an image.
pub const REL_TYPE_IMAGE: &'static str = "http://schemas.openxmlformats.org/officeDocument/2006/relationships/image";

/// The prefix of every relationship id.
pub const REL_ID_PREFIX: &'static str = "rId";

/// The closing tag of the relationship document; new entries go right before it.
pub const RELS_CLOSING_TAG: &'static str = "</Relationships>";

/// What goes before each new entry.
pub const REL_SEPARATOR: &'static str = "\n    ";

/// The first group of each match of `Id="(rId\d+)"` in the text, in order.
pub uninterp spec fn rel_id_captures(s: Seq<char>) -> Seq<Seq<char>>;

/// Relies on `regex::Regex::captures_iter` for the pattern `Id="(rId\d+)"`: the text of
/// the first group of each match, in order of appearance.
#[verifier::external_body]
fn find_rel_ids(s: &str) -> (r: Vec<String>)
    ensures
        r@.len() == rel_id_captures(s@).len(),
        forall|i: int| 0 <= i < r@.len() ==> #[trigger] r@[i]@ == rel_id_captures(s@)[i],
{
    let re = regex::Regex::new(r#"Id="(rId\d+)""#).unwrap();
    re.captures_iter(s).map(|c| c[1].to_string()).collect()
}

/// Relies on `std::str::from_utf8`: the text, exactly when the bytes are valid UTF-8.
#[verifier::external_body]
fn utf8_text(b: &[u8]) -> (r: Option<&str>)
    ensures
        r is Some <==> valid_utf8(b@),
        r is Some ==> r->0.spec_bytes() == b@,
{
    std::str::from_utf8(b).ok()
}

/// The number of an id `rId<digits>`, if it has that shape.
pub open spec fn rid_number(id: Seq<char>) -> Option<u32> {
    if id.len() >= 3 && id.take(3) == "rId"@ {
        parse_u32(id.skip(3))
    } else {
        None
    }
}

/// The largest number among the ids `ids[..n]`, 0 for none.
pub open spec fn max_rid(ids: Seq<Seq<char>>, n: nat) -> nat
    decreases n,
{
    if n == 0 || n > ids.len() {
        0
    } else {
        let m = max_rid(ids, (n - 1) as nat);
        match rid_number(ids[n - 1]) {
            Some(v) => if v as nat > m {
                v as nat
            } else {
                m
            },
            None => m,
        }
    }
}

/// The number after the largest among `ids`.
pub open spec fn next_rid(ids: Seq<Seq<char>>) -> nat {
    max_rid(ids, ids.len()) + 1
}

proof fn lemma_max_rid_bound(ids: Seq<Seq<char>>, n: nat)
    ensures
        max_rid(ids, n) <= u32::MAX,
    decreases n,
{
    if n > 0 && n <= ids.len() {
        lemma_max_rid_bound(ids, (n - 1) as nat);
    }
}

/// The number after the largest id number among `ids`, 1 where none has the shape
/// `rId<digits>`.
pub fn next_rid_from_ids(ids: &Vec<String>) -> (r: u64)
    ensures
        r as nat == next_rid(Seq::new(ids@.len(), |i: int| ids@[i]@)),
{
    let ghost v = Seq::new(ids@.len(), |i: int| ids@[i]@);
    let mut max_id: u64 = 0;
    let mut i: usize = 0;
    proof {
        reveal_strlit("rId");
    }
    while i < ids.len()
        invariant
            i <= ids.len(),
            v == Seq::new(ids@.len(), |i: int| ids@[i]@),
            max_id as nat == max_rid(v, i as nat),
        decreases ids.len() - i,
    {
        proof {
            reveal_strlit("rId");
        }
        let id = ids[i].as_str();
        let n = id.unicode_len();
        if n >= 3 && id.get_char(0) == 'r' && id.get_char(1) == 'I' && id.get_char(2) == 'd' {
            assert(id@.take(3) =~= "rId"@);
            let digits = id.substring_char(3, n);
            match parse_decimal_u32(digits) {
                Some(num) => {
                    if num as u64 > max_id {
                        max_id = num as u64;
                    }
                },
                None => {},
            }
        } else {
            assert(n >= 3 ==> id@.take(3) != "rId"@) by {
                if n >= 3 {
                    assert("rId"@[0] == 'r');
                    assert("rId"@[1] == 'I');
                    assert("rId"@[2] == 'd');
                    assert(id@.take(3)[0] == id@[0]);
                }
            }
        }
        i = i + 1;
    }
    proof {
        lemma_max_rid_bound(v, i as nat);
    }
    max_id + 1
}

/// The number after the largest relationship id `rId<N>` among the `Id="..."`
/// attributes of a relationship document; 1 where there is none.
pub fn parse_next_rid_from_rels(rels_content: &str) -> (r: u64)
    ensures
        r as nat == next_rid(rel_id_captures(rels_content@)),
{
    let ids = find_rel_ids(rels_content);
    let r = next_rid_from_ids(&ids);
    assert(Seq::new(ids@.len(), |i: int| ids@[i]@) =~= rel_id_captures(rels_content@));
    r
}

/// The state of a [`RelationshipManager`].
pub struct RelsView {
    /// The number of the next id handed out.
    pub next_id: nat,
    /// The entries added, in order.
    pub pending: Seq<Seq<char>>,
    /// The relationship document as it was read, once set.
    pub document: Option<Seq<u8>>,
}

/// `<Relationship Id="{id}" Type="{image type}" Target="media/{filename}"/>`
pub open spec fn rel_fragment(id: Seq<char>, filename: Seq<char>) -> Seq<char> {
    "<Relationship Id=\""@ + id + "\" Type=\""@ + REL_TYPE_IMAGE@ + "\" Target=\"media/"@
        + filename + "\"/>"@
}

/// `rId{n}`
pub open spec fn rel_id_text(n: nat) -> Seq<char> {
    "rId"@ + dec_text(n)
}

/// Whether `pat` stands in `o` at `p`.
pub open spec fn matches_at(o: Seq<u8>, p: int, pat: Seq<u8>) -> bool {
    0 <= p && p + pat.len() <= o.len() && o.subrange(p, p + pat.len()) == pat
}

/// The last position `p < end` where `pat` stands in `o`, or -1.
pub open spec fn last_match_before(o: Seq<u8>, pat: Seq<u8>, end: int) -> int
    decreases end,
{
    if end <= 0 {
        -1
    } else if matches_at(o, end - 1, pat) {
        end - 1
    } else {
        last_match_before(o, pat, end - 1)
    }
}

/// The last position where `pat` stands in `o`, or -1.
pub open spec fn last_match(o: Seq<u8>, pat: Seq<u8>) -> int {
    last_match_before(o, pat, (o.len() + 1) as int)
}

/// The bytes of the entries `pending[..n]`, each after a separator.
pub open spec fn joined_entries(pending: Seq<Seq<char>>, n: nat) -> Seq<u8>
    decreases n,
{
    if n == 0 || n > pending.len() {
        Seq::empty()
    } else {
        joined_entries(pending, (n - 1) as nat) + encode_utf8(pending[n - 1]) + encode_utf8(
            REL_SEPARATOR@,
        )
    }
}

/// Where the entries go: right before the last closing tag, or at the end of a document
/// that has none.
pub open spec fn insert_pos(o: Seq<u8>) -> int {
    let p = last_match(o, encode_utf8(RELS_CLOSING_TAG@));
    if p < 0 {
        o.len() as int
    } else {
        p
    }
}

/// The relationship document with the pending entries: none without a document, the
/// document unchanged without entries, else the entries spliced in at [`insert_pos`].
pub open spec fn final_rels(v: RelsView) -> Option<Seq<u8>> {
    match v.document {
        None => None,
        Some(o) => if v.pending.len() == 0 {
            Some(o)
        } else {
            let p = insert_pos(o);
            Some(
                o.take(p) + encode_utf8(REL_SEPARATOR@) + joined_entries(v.pending, v.pending.len())
                    + o.skip(p),
            )
        },
    }
}

fn bytes_match_at(o: &[u8], p: usize, pat: &[u8]) -> (r: bool)
    requires
        p + pat@.len() <= o@.len(),
    ensures
        r == matches_at(o@, p as int, pat@),
{
    let olen = o.len();
    let mut i: usize = 0;
    while i < pat.len()
        invariant
            p + pat@.len() <= o@.len(),
            olen == o@.len(),
            i <= pat@.len(),
            forall|j: int| 0 <= j < i ==> o@[p + j] == pat@[j],
        decreases pat@.len() - i,
    {
        if o[p + i] != pat[i] {
            assert(o@.subrange(p as int, p + pat@.len())[i as int] != pat@[i as int]);
            return false;
        }
        i = i + 1;
    }
    assert(o@.subrange(p as int, p + pat@.len()) =~= pat@);
    true
}

fn find_last(o: &[u8], pat: &[u8]) -> (r: Option<usize>)
    ensures
        match r {
            Some(p) => p as int == last_match(o@, pat@) && matches_at(o@, p as int, pat@),
            None => last_match(o@, pat@) == -1,
        },
{
    if pat.len() > o.len() {
        proof {
            lemma_no_match_before(o@, pat@, (o@.len() + 1) as int);
        }
        return None;
    }
    let mut cand: usize = o.len() - pat.len();
    proof {
        lemma_no_match_past(o@, pat@, cand + 1, (o@.len() + 1) as int);
    }
    loop
        invariant
            cand <= o@.len() - pat@.len(),
            pat@.len() <= o@.len(),
            last_match(o@, pat@) == last_match_before(o@, pat@, cand + 1),
        decreases cand,
    {
        if bytes_match_at(o, cand, pat) {
            return Some(cand);
        }
        if cand == 0 {
            assert(last_match_before(o@, pat@, 0) == -1);
            return None;
        }
        cand = cand - 1;
    }
}

proof fn lemma_no_match_before(o: Seq<u8>, pat: Seq<u8>, end: int)
    requires
        pat.len() > o.len(),
    ensures
        last_match_before(o, pat, end) == -1,
    decreases end,
{
    if end > 0 {
        lemma_no_match_before(o, pat, end - 1);
    }
}

proof fn lemma_no_match_past(o: Seq<u8>, pat: Seq<u8>, lo: int, end: int)
    requires
        0 <= lo <= end,
        lo >= o.len() - pat.len() + 1,
    ensures
        last_match_before(o, pat, end) == last_match_before(o, pat, lo),
    decreases end - lo,
{
    if end > lo {
        lemma_no_match_past(o, pat, lo, end - 1);
    }
}

/// Hands out relationship ids for new images and rewrites the relationship document
/// with their entries.
pub struct RelationshipManager {
    current_rid: u64,
    new_rels: Vec<String>,
    rels_content: Option<Bytes>,
}

impl View for RelationshipManager {
    type V = RelsView;

    closed spec fn view(&self) -> RelsView {
        RelsView {
            next_id: self.current_rid as nat,
            pending: Seq::new(self.new_rels@.len(), |i: int| self.new_rels@[i]@),
            document: match self.rels_content {
                Some(b) => Some(bytes_view(b)),
                None => None,
            },
        }
    }
}

impl RelationshipManager {
    /// A manager with no document, no entries and next id 1.
    pub fn new() -> (r: Self)
        ensures
            r@.next_id == 1,
            r@.pending.len() == 0,
            r@.document is None,
    {
        RelationshipManager { current_rid: 1, new_rels: Vec::new(), rels_content: None }
    }

    /// The id number that the next image gets.
    pub fn next_id(&self) -> (r: u64)
        ensures
            r as nat == self@.next_id,
    {
        self.current_rid
    }

    /// Takes the package's relationship document: the next id becomes the one after the
    /// largest `rId<N>` in it (1 where there is none), where it is valid UTF-8.
    pub fn set_initial_content(&mut self, content: Bytes)
        ensures
            final(self)@.next_id == if valid_utf8(bytes_view(content)) {
                next_rid(rel_id_captures(decode_utf8(bytes_view(content))))
            } else {
                old(self)@.next_id
            },
            final(self)@.pending == old(self)@.pending,
            final(self)@.document == Some(bytes_view(content)),
    {
        match utf8_text(bytes_slice(&content)) {
            Some(text) => {
                proof {
                    encode_utf8_decode_utf8(text@);
                }
                self.current_rid = parse_next_rid_from_rels(text);
            },
            None => {},
        }
        self.rels_content = Some(content);
    }

    /// Registers an image stored as `media/{filename}`: returns its id `rId{N}` and the
    /// number `N`, and queues its relationship entry.
    pub fn add_image_relationship(&mut self, filename: &str) -> (r: (String, u64))
        requires
            old(self)@.next_id < u64::MAX,
        ensures
            r.0@ == rel_id_text(old(self)@.next_id),
            r.1 as nat == old(self)@.next_id,
            final(self)@.next_id == old(self)@.next_id + 1,
            final(self)@.pending == old(self)@.pending.push(rel_fragment(r.0@, filename@)),
            final(self)@.document == old(self)@.document,
    {
        let image_id = self.current_rid;
        let mut rel_id = String::from_str(REL_ID_PREFIX);
        let num = decimal(self.current_rid);
        rel_id.append(num.as_str());
        self.current_rid = self.current_rid + 1;
        let mut rel_xml = String::from_str("<Relationship Id=\"");
        rel_xml.append(rel_id.as_str());
        rel_xml.append("\" Type=\"");
        rel_xml.append(REL_TYPE_IMAGE);
        rel_xml.append("\" Target=\"media/");
        rel_xml.append(filename);
        rel_xml.append("\"/>");
        self.new_rels.push(rel_xml);
        assert(self@.pending =~= old(self)@.pending.push(rel_fragment(rel_id@, filename@)));
        (rel_id, image_id)
    }

    /// The relationship document with the new entries, as [`final_rels`] states; `None`
    /// exactly when no document was set.
    pub fn generate_final_rels_content(&self) -> (r: Option<Bytes>)
        ensures
            r is None <==> self@.document is None,
            r matches Some(b) ==> final_rels(self@) == Some(bytes_view(b)),
    {
        match &self.rels_content {
            None => None,
            Some(buf) => {
                if self.new_rels.len() == 0 {
                    return Some(bytes_clone(buf));
                }
                let content = bytes_slice(buf);
                let tag = RELS_CLOSING_TAG.as_bytes();
                let pos = match find_last(content, tag) {
                    Some(p) => p,
                    None => content.len(),
                };
                proof {
                    if last_match(content@, tag@) >= 0 {
                        assert(matches_at(content@, last_match(content@, tag@), tag@));
                    }
                }
                {
                    {
                        let sep = REL_SEPARATOR.as_bytes();
                        let mut out = bytes_mut_new();
                        bytes_mut_extend(&mut out, slice_subrange(content, 0, pos));
                        bytes_mut_extend(&mut out, sep);
                        let ghost pv = self@.pending;
                        let ghost head = bytes_mut_view(out);
                        assert(head =~= content@.take(pos as int) + sep@);
                        let mut k: usize = 0;
                        while k < self.new_rels.len()
                            invariant
                                k <= self.new_rels@.len(),
                                pv == self@.pending,
                                pv.len() == self.new_rels@.len(),
                                sep@ == encode_utf8(REL_SEPARATOR@),
                                bytes_mut_view(out) == head + joined_entries(pv, k as nat),
                            decreases self.new_rels@.len() - k,
                        {
                            bytes_mut_extend(&mut out, self.new_rels[k].as_str().as_bytes());
                            bytes_mut_extend(&mut out, sep);
                            assert(bytes_mut_view(out) =~= head + joined_entries(pv, (k + 1) as nat));
                            k = k + 1;
                        }
                        bytes_mut_extend(&mut out, slice_subrange(content, pos, content.len()));
                        Some(bytes_mut_freeze(out))
                    }
                }
            },
        }
    }
}

/// The next id always fits in 64 bits.
pub proof fn lemma_next_id_fits(m: &RelationshipManager)
    ensures
        m@.next_id <= u64::MAX,
{
}

/// With no entry added, the document comes back byte for byte as it was set.
pub proof fn lemma_finalize_without_entries(content: Seq<u8>, next_id: nat)
    ensures
        final_rels(RelsView { next_id, pending: Seq::empty(), document: Some(content) }) == Some(
            content,
        ),
{
}

} // verus!
