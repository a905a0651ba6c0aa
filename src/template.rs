//! Document events, and the rows of a table rendered from a template row.
use vstd::prelude::*;
use vstd::string::StringExecFns;
use crate::handler::ValueExt;
use crate::image::{ImageError, ImageManager, ImagesView, base64_decoded, embedded_markup};
use crate::rels::RelsView;
use crate::merge::{VMerge, merge_plan, plan_row, row_view, rows_view};
use crate::rels::RelationshipManager;
use crate::text::{chars_of, has_prefix, starts_with};
use crate::value::{Record, RecordView, record_view, records_view};

verus! {

/// The name and the text inside the brackets of a start or empty tag (name and
/// attributes, as they were written).
pub struct XmlTag {
    pub name: String,
    pub content: String,
}

/// One event of the document body.
pub enum XmlEvent {
    Start(XmlTag),
    /// An end tag, by name.
    End(String),
    Empty(XmlTag),
    /// Text content, as written (escaped).
    Text(String),
    /// Anything else (declarations, comments, CDATA, ...), as written.
    Other(String),
}

/// Why a document body could not be rewritten.
#[derive(Debug, Clone, Copy, PartialEq, Eq, Structural)]
pub enum EngineError {
    /// A table starts inside another table.
    NestedTable,
    /// The body ends inside a table.
    UnclosedTable,
    /// An image payload could not be embedded.
    Image(ImageError),
}

/// The markup of an event.
pub open spec fn event_markup(e: XmlEvent) -> Seq<char> {
    match e {
        XmlEvent::Start(t) => "<"@ + t.content@ + ">"@,
        XmlEvent::End(n) => "</"@ + n@ + ">"@,
        XmlEvent::Empty(t) => "<"@ + t.content@ + "/>"@,
        XmlEvent::Text(s) => s@,
        XmlEvent::Other(s) => s@,
    }
}

/// Appends the markup of an event.
pub fn write_event(out: &mut String, e: &XmlEvent)
    ensures
        final(out)@ == old(out)@ + event_markup(*e),
{
    match e {
        XmlEvent::Start(t) => {
            out.append("<");
            out.append(t.content.as_str());
            out.append(">");
        },
        XmlEvent::End(n) => {
            out.append("</");
            out.append(n.as_str());
            out.append(">");
        },
        XmlEvent::Empty(t) => {
            out.append("<");
            out.append(t.content.as_str());
            out.append("/>");
        },
        XmlEvent::Text(s) => out.append(s.as_str()),
        XmlEvent::Other(s) => out.append(s.as_str()),
    }
}

/// Whether a text is a base64 PNG or JPEG payload, by its first characters.
pub open spec fn is_image_payload(v: Seq<char>) -> bool {
    starts_with(v, "iVBORw0KGgo"@) || starts_with(v, "/9j/"@)
}

/// Whether a text is a base64 PNG or JPEG payload.
pub fn image_payload(v: &str) -> (r: bool)
    ensures
        r == is_image_payload(v@),
{
    let c = chars_of(v);
    has_prefix(c.as_slice(), "iVBORw0KGgo") || has_prefix(c.as_slice(), "/9j/")
}

/// Every image payload among `vals` is valid base64.
pub open spec fn images_decode(vals: Seq<Seq<char>>) -> bool {
    forall|i: int|
        0 <= i < vals.len() && is_image_payload(#[trigger] vals[i]) ==> base64_decoded(vals[i]) is Some
}

/// The number of values in `rows[..n]`.
pub open spec fn total_values(rows: Seq<Seq<Seq<char>>>, n: nat) -> nat
    decreases n,
{
    if n == 0 || n > rows.len() {
        0
    } else {
        total_values(rows, (n - 1) as nat) + rows[n - 1].len()
    }
}

/// The texts of the text events among `events`, in order.
pub open spec fn text_nodes(events: Seq<XmlEvent>) -> Seq<Seq<char>>
    decreases events.len(),
{
    if events.len() == 0 {
        Seq::empty()
    } else {
        let rest = text_nodes(events.drop_last());
        match events.last() {
            XmlEvent::Text(s) => rest.push(s@),
            _ => rest,
        }
    }
}

/// The rendered values of a template row for record `rec` at row `index`: one per text
/// event.
pub open spec fn row_values_spec<H: ValueExt>(
    h: H,
    tmpl: Seq<XmlEvent>,
    rec: RecordView,
    index: nat,
) -> Seq<Seq<char>> {
    Seq::new(text_nodes(tmpl).len(), |i: int| h.table_text(index, text_nodes(tmpl)[i], rec))
}

/// The cell properties that carry a vertical-merge marker.
pub open spec fn merge_markup(d: Option<VMerge>) -> Seq<char> {
    match d {
        Some(VMerge::Restart) => "<w:tcPr><w:vMerge w:val=\"restart\"/></w:tcPr>"@,
        Some(VMerge::Continue) => "<w:tcPr><w:vMerge w:val=\"continue\"/></w:tcPr>"@,
        None => Seq::empty(),
    }
}

/// Where the writing of a row stands after some of its template's events.
pub struct RowState {
    pub out: Seq<char>,
    /// Index of the current cell, -1 before the first.
    pub cell: int,
    pub in_cell: bool,
    /// The current cell continues a span: its text is left out.
    pub skip: bool,
    /// Index of the next text event.
    pub text: int,
    /// For each text event so far, whether it embedded an image.
    pub embeds: Seq<bool>,
}

/// The row after one more template event. Each cell start gets the marker of its
/// index; the text of a continued cell is left out; any other text event gives its
/// rendered value, or, where that is an image payload, the image's markup.
pub open spec fn row_step(
    s: RowState,
    e: XmlEvent,
    dirs: Seq<Option<VMerge>>,
    vals: Seq<Seq<char>>,
    imgs: Seq<Seq<char>>,
) -> RowState {
    match e {
        XmlEvent::Start(t) => if t.name@ == "w:tc"@ {
            let c = s.cell + 1;
            let d = if 0 <= c < dirs.len() {
                dirs[c]
            } else {
                None
            };
            RowState {
                out: s.out + event_markup(e) + merge_markup(d),
                cell: c,
                in_cell: true,
                skip: if d == Some(VMerge::Continue) {
                    true
                } else {
                    s.skip
                },
                text: s.text,
                embeds: s.embeds,
            }
        } else {
            RowState { out: s.out + event_markup(e), ..s }
        },
        XmlEvent::Text(_) => {
            let piece = if s.in_cell && s.skip {
                Seq::empty()
            } else if is_image_payload(vals[s.text]) {
                imgs[s.text]
            } else {
                vals[s.text]
            };
            RowState {
                out: s.out + piece,
                text: s.text + 1,
                embeds: s.embeds.push(!(s.in_cell && s.skip) && is_image_payload(vals[s.text])),
                ..s
            }
        },
        XmlEvent::End(n) => if n@ == "w:tc"@ {
            RowState { out: s.out + event_markup(e), in_cell: false, skip: false, ..s }
        } else {
            RowState { out: s.out + event_markup(e), ..s }
        },
        _ => RowState { out: s.out + event_markup(e), ..s },
    }
}

/// The row after the first `n` template events.
pub open spec fn row_walk(
    tmpl: Seq<XmlEvent>,
    dirs: Seq<Option<VMerge>>,
    vals: Seq<Seq<char>>,
    imgs: Seq<Seq<char>>,
    n: nat,
) -> RowState
    decreases n,
{
    if n == 0 || n > tmpl.len() {
        RowState {
            out: Seq::empty(),
            cell: -1,
            in_cell: false,
            skip: false,
            text: 0,
            embeds: Seq::empty(),
        }
    } else {
        row_step(row_walk(tmpl, dirs, vals, imgs, (n - 1) as nat), tmpl[n - 1], dirs, vals, imgs)
    }
}

/// The markup of a generated row: `vals` are the rendered values of its text events,
/// `dirs` the merge markers of its cells, `imgs` the markup of the images among `vals`.
pub open spec fn row_text(
    tmpl: Seq<XmlEvent>,
    dirs: Seq<Option<VMerge>>,
    vals: Seq<Seq<char>>,
    imgs: Seq<Seq<char>>,
) -> Seq<char> {
    row_walk(tmpl, dirs, vals, imgs, tmpl.len()).out
}

proof fn lemma_text_nodes_step(tmpl: Seq<XmlEvent>, n: int)
    requires
        0 <= n < tmpl.len(),
    ensures
        text_nodes(tmpl.take(n + 1)) == match tmpl[n] {
            XmlEvent::Text(s) => text_nodes(tmpl.take(n)).push(s@),
            _ => text_nodes(tmpl.take(n)),
        },
{
    assert(tmpl.take(n + 1).drop_last() =~= tmpl.take(n));
}

proof fn lemma_walk_text_index(
    tmpl: Seq<XmlEvent>,
    dirs: Seq<Option<VMerge>>,
    vals: Seq<Seq<char>>,
    imgs: Seq<Seq<char>>,
    n: nat,
)
    requires
        n <= tmpl.len(),
    ensures
        row_walk(tmpl, dirs, vals, imgs, n).text == text_nodes(tmpl.take(n as int)).len(),
    decreases n,
{
    if n == 0 {
        assert(tmpl.take(0) =~= Seq::<XmlEvent>::empty());
    } else {
        lemma_walk_text_index(tmpl, dirs, vals, imgs, (n - 1) as nat);
        lemma_text_nodes_step(tmpl, n - 1);
    }
}

fn merge_tag(d: Option<VMerge>) -> (r: &'static str)
    ensures
        r@ == merge_markup(d),
{
    match d {
        Some(VMerge::Restart) => "<w:tcPr><w:vMerge w:val=\"restart\"/></w:tcPr>",
        Some(VMerge::Continue) => "<w:tcPr><w:vMerge w:val=\"continue\"/></w:tcPr>",
        None => {
            proof {
                reveal_strlit("");
            }
            ""
        },
    }
}

/// Whether a name is the given literal.
pub(crate) fn is_name(n: &String, lit: &str) -> (r: bool)
    ensures
        r == (n@ == lit@),
{
    let l = String::from_str(lit);
    *n == l
}

proof fn lemma_walk_frame(
    tmpl: Seq<XmlEvent>,
    dirs: Seq<Option<VMerge>>,
    vals: Seq<Seq<char>>,
    a: Seq<Seq<char>>,
    b: Seq<Seq<char>>,
    n: nat,
)
    requires
        n <= tmpl.len(),
        forall|i: int| 0 <= i < text_nodes(tmpl.take(n as int)).len() ==> a[i] == b[i],
    ensures
        row_walk(tmpl, dirs, vals, a, n) == row_walk(tmpl, dirs, vals, b, n),
    decreases n,
{
    if n > 0 {
        lemma_text_nodes_step(tmpl, n - 1);
        lemma_walk_text_index(tmpl, dirs, vals, a, (n - 1) as nat);
        lemma_walk_frame(tmpl, dirs, vals, a, b, (n - 1) as nat);
    }
}

/// Writes one generated row; the ghost result holds the markup of the images among the
/// values, by value index.
fn write_row(
    tmpl: &Vec<XmlEvent>,
    dirs: &Vec<Option<VMerge>>,
    vals: &Vec<String>,
    images: &mut ImageManager,
    rels: &mut RelationshipManager,
) -> (r: Result<String, EngineError>)
    requires
        vals@.len() == text_nodes(tmpl@).len(),
        old(images)@.milli_dpi > 0,
    ensures
        final(images)@.milli_dpi == old(images)@.milli_dpi,
        final(rels)@.next_id <= old(rels)@.next_id + vals@.len(),
        r matches Err(e) ==> e is Image,
        images_decode(row_view(vals)) && old(rels)@.next_id + vals@.len() <= u64::MAX ==> r is Ok,
        r matches Ok(s) ==> row_matches(
            tmpl@,
            dirs@,
            row_view(vals),
            s@,
            (old(images)@, old(rels)@),
            (final(images)@, final(rels)@),
        ),
{
    let ghost vv = row_view(vals);
    let ghost mut imgs: Seq<Seq<char>> = Seq::empty();
    let ghost mut emb: Seq<bool> = Seq::empty();
    let ghost mut st: Seq<(ImagesView, RelsView)> = seq![(images@, rels@)];
    let mut out = String::new();
    let mut next_cell: usize = 0;
    let mut in_cell = false;
    let mut skip = false;
    let mut ti: usize = 0;
    let mut n: usize = 0;
    while n < tmpl.len()
        invariant
            n <= tmpl@.len(),
            next_cell <= n,
            vv == row_view(vals),
            vals@.len() == text_nodes(tmpl@).len(),
            images@.milli_dpi == old(images)@.milli_dpi,
            images@.milli_dpi > 0,
            rels@.next_id <= old(rels)@.next_id + ti,
            imgs.len() == ti,
            ti == text_nodes(tmpl@.take(n as int)).len(),
            row_walk(tmpl@, dirs@, vv, imgs, n as nat) == (RowState {
                out: out@,
                cell: next_cell - 1,
                in_cell,
                skip,
                text: ti as int,
                embeds: emb,
            }),
            image_chain(vv, imgs, emb, st),
            emb.len() == ti,
            st[0] == (old(images)@, old(rels)@),
            st.last() == (images@, rels@),
        decreases tmpl@.len() - n,
    {
        proof {
            lemma_text_nodes_step(tmpl@, n as int);
            lemma_walk_text_index(tmpl@, dirs@, vv, imgs, n as nat);
            assert(tmpl@.take(tmpl@.len() as int) =~= tmpl@);
            lemma_text_nodes_prefix_len(tmpl@, (n + 1) as nat);
        }
        let e = &tmpl[n];
        match e {
            XmlEvent::Start(t) => {
                write_event(&mut out, e);
                if is_name(&t.name, "w:tc") {
                    let c = next_cell;
                    let d = if c < dirs.len() {
                        dirs[c]
                    } else {
                        None
                    };
                    out.append(merge_tag(d));
                    if d == Some(VMerge::Continue) {
                        skip = true;
                    }
                    in_cell = true;
                    next_cell = next_cell + 1;
                }
            },
            XmlEvent::Text(_) => {
                let ghost piece: Seq<char>;
                let ghost before = (images@, rels@);
                assert(ti < vals@.len());
                assert(vv[ti as int] == vals@[ti as int]@);
                if in_cell && skip {
                    proof {
                        piece = vals@[ti as int]@;
                    }
                } else if image_payload(vals[ti].as_str()) {
                    assert(vv[ti as int] == vals@[ti as int]@);
                    let markup = match images.embed_image(vals[ti].as_str(), rels) {
                        Ok(m) => m,
                        Err(err) => {
                            assert(ti < vals@.len());
                            return Err(EngineError::Image(err));
                        },
                    };
                    out.append(markup.as_str());
                    proof {
                        piece = markup@;
                    }
                } else {
                    out.append(vals[ti].as_str());
                    proof {
                        piece = vals@[ti as int]@;
                    }
                }
                proof {
                    let old_imgs = imgs;
                    let old_emb = emb;
                    let old_st = st;
                    let b = !(in_cell && skip) && is_image_payload(vv[ti as int]);
                    imgs = imgs.push(piece);
                    emb = emb.push(b);
                    st = st.push((images@, rels@));
                    lemma_walk_frame(tmpl@, dirs@, vv, old_imgs, imgs, n as nat);
                    assert forall|k: int| 0 <= k < emb.len() implies if #[trigger] emb[k] {
                        embedded_markup(st[k].0, st[k + 1].0, st[k].1, st[k + 1].1, vv[k], imgs[k])
                    } else {
                        st[k + 1] == st[k]
                    } by {
                        if k < old_emb.len() {
                            assert(emb[k] == old_emb[k]);
                            assert(imgs[k] == old_imgs[k]);
                            assert(st[k] == old_st[k] && st[k + 1] == old_st[k + 1]);
                        } else {
                            assert(st[k] == before);
                        }
                    }
                }
                assert(ti < vals.len());
                ti = ti + 1;
            },
            XmlEvent::End(name) => {
                write_event(&mut out, e);
                if is_name(name, "w:tc") {
                    in_cell = false;
                    skip = false;
                }
            },
            _ => {
                write_event(&mut out, e);
            },
        }
        n = n + 1;
    }
    assert(tmpl@.take(n as int) =~= tmpl@);
    assert(image_chain(vv, imgs, row_walk(tmpl@, dirs@, vv, imgs, tmpl@.len()).embeds, st));
    Ok(out)
}

proof fn lemma_total_values_mono(rows: Seq<Seq<Seq<char>>>, m: nat, n: nat)
    requires
        m <= n <= rows.len(),
    ensures
        total_values(rows, m) <= total_values(rows, n),
    decreases n - m,
{
    if m < n {
        lemma_total_values_mono(rows, m, (n - 1) as nat);
    }
}

proof fn lemma_text_nodes_prefix_len(tmpl: Seq<XmlEvent>, n: nat)
    requires
        n <= tmpl.len(),
    ensures
        text_nodes(tmpl.take(n as int)).len() <= text_nodes(tmpl).len(),
    decreases tmpl.len() - n,
{
    if n < tmpl.len() {
        lemma_text_nodes_step(tmpl, n as int);
        lemma_text_nodes_prefix_len(tmpl, n + 1);
    } else {
        assert(tmpl.take(n as int) =~= tmpl);
    }
}

/// The rendered values of a template row for one record at row `index`: the handler's
/// table text of each text event, in order.
pub fn render_row_values<H: ValueExt>(
    handler: &H,
    tmpl: &Vec<XmlEvent>,
    rec: &Record,
    index: usize,
) -> (r: Vec<String>)
    ensures
        row_view(&r) == row_values_spec(*handler, tmpl@, record_view(rec@), index as nat),
{
    let ghost rv = record_view(rec@);
    let mut vals: Vec<String> = Vec::new();
    let mut n: usize = 0;
    while n < tmpl.len()
        invariant
            n <= tmpl@.len(),
            rv == record_view(rec@),
            vals@.len() == text_nodes(tmpl@.take(n as int)).len(),
            forall|i: int|
                0 <= i < vals@.len() ==> #[trigger] vals@[i]@ == handler.table_text(
                    index as nat,
                    text_nodes(tmpl@.take(n as int))[i],
                    rv,
                ),
        decreases tmpl@.len() - n,
    {
        proof {
            lemma_text_nodes_step(tmpl@, n as int);
        }
        match &tmpl[n] {
            XmlEvent::Text(t) => {
                let v = handler.replace_in_table(index, t.as_str(), rec);
                vals.push(v);
            },
            _ => {},
        }
        n = n + 1;
    }
    assert(tmpl@.take(n as int) =~= tmpl@);
    assert(row_view(&vals) =~= row_values_spec(*handler, tmpl@, rv, index as nat));
    vals
}

/// `out` is the markup of a generated row for some markup of its images.
pub open spec fn row_matches(
    tmpl: Seq<XmlEvent>,
    dirs: Seq<Option<VMerge>>,
    vals: Seq<Seq<char>>,
    out: Seq<char>,
    start: (ImagesView, RelsView),
    end: (ImagesView, RelsView),
) -> bool {
    exists|imgs: Seq<Seq<char>>, st: Seq<(ImagesView, RelsView)>|
        {
            &&& out == row_text(tmpl, dirs, vals, imgs)
            &&& #[trigger] image_chain(
                vals,
                imgs,
                row_walk(tmpl, dirs, vals, imgs, tmpl.len()).embeds,
                st,
            )
            &&& st[0] == start
            &&& st.last() == end
        }
}

/// The image managers' states `st` around each text event of a row: a text that
/// embeds an image moves them as embedding its value with markup `imgs[k]` does
/// ([`embedded_markup`]); any other leaves them as they are.
pub open spec fn image_chain(
    vals: Seq<Seq<char>>,
    imgs: Seq<Seq<char>>,
    embeds: Seq<bool>,
    st: Seq<(ImagesView, RelsView)>,
) -> bool {
    &&& st.len() == embeds.len() + 1
    &&& forall|k: int|
        0 <= k < embeds.len() ==> if #[trigger] embeds[k] {
            embedded_markup(st[k].0, st[k + 1].0, st[k].1, st[k + 1].1, vals[k], imgs[k])
        } else {
            st[k + 1] == st[k]
        }
}

/// Each row `rows[i]` is generated row `i`, and the managers' states `ms` run from one
/// row to the next.
pub open spec fn rows_chain(
    tmpl: Seq<XmlEvent>,
    vals: Seq<Seq<Seq<char>>>,
    rows: Seq<Seq<char>>,
    ms: Seq<(ImagesView, RelsView)>,
) -> bool {
    &&& ms.len() == rows.len() + 1
    &&& forall|i: int|
        0 <= i < rows.len() ==> #[trigger] row_matches(
            tmpl,
            plan_row(vals, i as nat),
            vals[i],
            rows[i],
            ms[i],
            ms[i + 1],
        )
}

/// The rows are the generated rows for `vals`, in order, embedding their images from
/// the managers' state `start` to `end`.
pub open spec fn rows_match(
    tmpl: Seq<XmlEvent>,
    vals: Seq<Seq<Seq<char>>>,
    rows: Seq<Seq<char>>,
    start: (ImagesView, RelsView),
    end: (ImagesView, RelsView),
) -> bool {
    exists|ms: Seq<(ImagesView, RelsView)>|
        #[trigger] rows_chain(tmpl, vals, rows, ms) && ms[0] == start && ms.last() == end
}

/// The rendered values of every generated row.
pub open spec fn all_row_values<H: ValueExt>(
    h: H,
    tmpl: Seq<XmlEvent>,
    recs: Seq<RecordView>,
) -> Seq<Seq<Seq<char>>> {
    Seq::new(recs.len(), |i: int| row_values_spec(h, tmpl, recs[i], i as nat))
}

/// Writes one row per record from the template row, with vertical merges: row `i` is
/// the template rendered for record `i` at index `i`, with the merge markers that
/// [`plan_row`] gives over all rows' rendered values.
pub fn write_rows_with_merge<H: ValueExt>(
    handler: &H,
    tmpl: &Vec<XmlEvent>,
    records: &Vec<Record>,
    images: &mut ImageManager,
    rels: &mut RelationshipManager,
) -> (r: Result<Vec<String>, EngineError>)
    requires
        old(images)@.milli_dpi > 0,
    ensures
        final(images)@.milli_dpi == old(images)@.milli_dpi,
        r matches Err(e) ==> e is Image,
        final(rels)@.next_id <= old(rels)@.next_id + total_values(
            all_row_values(*handler, tmpl@, records_view(records@)),
            records@.len(),
        ),
        ({
            let vals = all_row_values(*handler, tmpl@, records_view(records@));
            (forall|i: int| 0 <= i < vals.len() ==> images_decode(#[trigger] vals[i]))
                && old(rels)@.next_id + total_values(vals, vals.len()) <= u64::MAX ==> r is Ok
        }),
        r matches Ok(rows) ==> rows@.len() == records@.len() && rows_match(
            tmpl@,
            all_row_values(*handler, tmpl@, records_view(records@)),
            Seq::new(rows@.len(), |i: int| rows@[i]@),
            (old(images)@, old(rels)@),
            (final(images)@, final(rels)@),
        ),
{
    let ghost all = all_row_values(*handler, tmpl@, records_view(records@));
    let mut values: Vec<Vec<String>> = Vec::new();
    let mut i: usize = 0;
    while i < records.len()
        invariant
            i <= records@.len(),
            all == all_row_values(*handler, tmpl@, records_view(records@)),
            values@.len() == i,
            forall|j: int| 0 <= j < i ==> #[trigger] row_view(&values@[j]) == all[j],
        decreases records@.len() - i,
    {
        let v = render_row_values(handler, tmpl, &records[i], i);
        values.push(v);
        i = i + 1;
    }
    assert(rows_view(values@) =~= all) by {
        assert forall|j: int| 0 <= j < all.len() implies rows_view(values@)[j] == all[j] by {
            assert(rows_view(values@)[j] =~= row_view(&values@[j]));
        }
    }
    let plan = merge_plan(&values);
    let ghost mut ms: Seq<(ImagesView, RelsView)> = seq![(images@, rels@)];
    let mut rows: Vec<String> = Vec::new();
    let mut k: usize = 0;
    while k < values.len()
        invariant
            k <= values@.len(),
            values@.len() == records@.len(),
            plan@.len() == values@.len(),
            rows_view(values@) == all,
            all == all_row_values(*handler, tmpl@, records_view(records@)),
            forall|j: int| 0 <= j < values@.len() ==> #[trigger] plan@[j]@ == plan_row(all, j as nat),
            forall|j: int| 0 <= j < values@.len() ==> #[trigger] row_view(&values@[j]) == all[j],
            images@.milli_dpi == old(images)@.milli_dpi,
            images@.milli_dpi > 0,
            rels@.next_id <= old(rels)@.next_id + total_values(all, k as nat),
            rows@.len() == k,
            ms.len() == k + 1,
            ms[0] == (old(images)@, old(rels)@),
            ms.last() == (images@, rels@),
            forall|j: int|
                0 <= j < k ==> #[trigger] row_matches(
                    tmpl@,
                    plan_row(all, j as nat),
                    all[j],
                    rows@[j]@,
                    ms[j],
                    ms[j + 1],
                ),
        decreases values@.len() - k,
    {
        assert(values@[k as int]@.len() == text_nodes(tmpl@).len()) by {
            assert(row_view(&values@[k as int]).len() == all[k as int].len());
        }
        proof {
            lemma_total_values_mono(all, (k + 1) as nat, all.len());
            assert(row_view(&values@[k as int]) == all[k as int]);
        }
        let ghost before_rows = rows@;
        let ghost before_ms = ms;
        let row = write_row(tmpl, &plan[k], &values[k], images, rels)?;
        rows.push(row);
        proof {
            ms = ms.push((images@, rels@));
            assert forall|j: int| 0 <= j < k + 1 implies #[trigger] row_matches(
                tmpl@,
                plan_row(all, j as nat),
                all[j],
                rows@[j]@,
                ms[j],
                ms[j + 1],
            ) by {
                if j < k {
                    assert(rows@[j] == before_rows[j]);
                    assert(ms[j] == before_ms[j] && ms[j + 1] == before_ms[j + 1]);
                }
            }
        }
        k = k + 1;
    }
    proof {
        let rs = Seq::new(rows@.len(), |i: int| rows@[i]@);
        assert forall|j: int| 0 <= j < rs.len() implies #[trigger] row_matches(
            tmpl@,
            plan_row(all, j as nat),
            all[j],
            rs[j],
            ms[j],
            ms[j + 1],
        ) by {
            assert(rs[j] == rows@[j]@);
        }
        assert(rows_chain(tmpl@, all, rs, ms));
    }
    Ok(rows)
}

} // verus!
