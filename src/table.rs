//! Tables: capturing a table's events, and writing it back with its rows expanded.
use vstd::prelude::*;
use vstd::slice::slice_subrange;
use vstd::string::StringExecFns;
use crate::handler::ValueExt;
use crate::image::{ImageManager, ImagesView, base64_decoded};
use crate::rels::RelsView;
use crate::merge::plan_row;
use crate::rels::RelationshipManager;
use crate::template::{
    image_chain, EngineError, XmlEvent, all_row_values, event_markup, image_payload, images_decode,
    is_image_payload, is_name, rows_match, total_values, write_event, write_rows_with_merge,
};
use crate::text::{chars_of, find_chars, find_from, lemma_find_from_range, has_prefix, remove_all, remove_all_chars, starts_with, string_of};
use crate::value::{JsonValue, JsonView, Record, RecordView, find_key, flatten, flatten_json, rec_get, record_view, records_view, lemma_key_index_range};

verus! {

/// A white-space character in Unicode's sense (the `White_Space` property), the set
/// that `\s` matches.
pub open spec fn is_white_space(c: char) -> bool {
    let u = c as u32;
    ||| 0x09 <= u <= 0x0D
    ||| u == 0x20
    ||| u == 0x85
    ||| u == 0xA0
    ||| u == 0x1680
    ||| 0x2000 <= u <= 0x200A
    ||| u == 0x2028
    ||| u == 0x2029
    ||| u == 0x202F
    ||| u == 0x205F
    ||| u == 0x3000
}

/// Whether a text holds a match of `\S(.+?)]`: a non-white-space character, then at
/// least one character other than a newline, then `]`. A row with such a text is a
/// template row.
pub open spec fn placeholder_found(s: Seq<char>) -> bool {
    exists|i: int, j: int|
        0 <= i && i + 2 <= j < s.len() && !is_white_space(#[trigger] s[i]) && #[trigger] s[j]
            == ']' && forall|k: int| i < k < j ==> s[k] != '\n'
}

/// Relies on `regex::Regex::is_match` for the pattern `\S(.+?)]`: whether the text holds
/// a match.
#[verifier::external_body]
fn has_placeholder(s: &str) -> (r: bool)
    ensures
        r == placeholder_found(s@),
{
    regex::Regex::new(r"\S(.+?)]").unwrap().is_match(s)
}

/// A captured table row: its events, and whether a text of it holds a placeholder.
pub struct CapturedRow {
    pub events: Vec<XmlEvent>,
    pub has_placeholder: bool,
}

/// The events of a table read so far.
pub struct TableCapture {
    /// Events outside rows (properties, grid, whitespace), in order.
    pub other: Vec<XmlEvent>,
    /// The complete rows, in order.
    pub rows: Vec<CapturedRow>,
    /// The loop key, taken from the first text of a row that starts with `{{#`.
    pub key: Option<String>,
    /// The row being read, if any.
    pub row: Vec<XmlEvent>,
    pub in_row: bool,
    pub depth: usize,
    pub row_has_placeholder: bool,
    pub row_first_text: bool,
}

/// A start tag named `n`.
pub open spec fn is_start_named(e: XmlEvent, n: Seq<char>) -> bool {
    e matches XmlEvent::Start(t) && t.name@ == n
}

/// An end tag named `n`.
pub open spec fn is_end_named(e: XmlEvent, n: Seq<char>) -> bool {
    e matches XmlEvent::End(m) && m@ == n
}

/// The loop key in a row's first text `{{#key}}...`: the text between `{{#` and the
/// nearest `}}` after it.
pub open spec fn loop_key_of(t: Seq<char>) -> Option<Seq<char>> {
    if starts_with(t, "{{#"@) && find_from(t, "}}"@, 3) >= 0 {
        Some(t.subrange(3, find_from(t, "}}"@, 3)))
    } else {
        None
    }
}

/// A row's first text with every `{{#key}}` of its loop key taken out.
pub open spec fn strip_loop_marker(t: Seq<char>) -> Seq<char> {
    remove_all(t, t.take(find_from(t, "}}"@, 3) + 2))
}

/// What capturing the text `t` inside a row does: the row's placeholder flag takes
/// [`placeholder_found`]; the row's first text, while no loop key is known, yields the
/// key [`loop_key_of`] and is kept without its marker ([`strip_loop_marker`]); any other
/// text is kept as it is.
pub open spec fn text_captured(before: TableCapture, after: TableCapture, t: String) -> bool {
    &&& after.row_has_placeholder == (before.row_has_placeholder || placeholder_found(t@))
    &&& !after.row_first_text
    &&& after.depth == before.depth
    &&& if before.row_first_text && before.key is None && loop_key_of(t@) is Some {
        &&& after.key matches Some(k) && k@ == loop_key_of(t@)->0
        &&& after.row@ == before.row@.push(XmlEvent::Text(after.row@.last()->Text_0))
        &&& after.row@.last()->Text_0@ == strip_loop_marker(t@)
    } else {
        &&& after.key == before.key
        &&& after.row@ == before.row@.push(XmlEvent::Text(t))
    }
}

/// What the next event of a table does to a capture that accepts it (anything but a
/// nested table start).
pub open spec fn event_captured(before: TableCapture, after: TableCapture, ev: XmlEvent) -> bool {
    if !before.in_row {
        if is_end_named(ev, "w:tbl"@) {
            after == before
        } else if is_start_named(ev, "w:tr"@) {
            &&& after.in_row
            &&& after.row@ == seq![ev]
            &&& after.depth == 1
            &&& !after.row_has_placeholder
            &&& after.row_first_text
            &&& after.other == before.other
            &&& after.rows == before.rows
            &&& after.key == before.key
        } else {
            &&& after.other@ == before.other@.push(ev)
            &&& after.rows == before.rows
            &&& after.key == before.key
            &&& after.in_row == before.in_row
        }
    } else {
        &&& after.other == before.other
        &&& if ev is Text {
            &&& after.in_row
            &&& after.rows == before.rows
            &&& text_captured(before, after, ev->Text_0)
        } else if is_end_named(ev, "w:tr"@) && before.depth <= 1 {
            &&& !after.in_row
            &&& after.key == before.key
            &&& after.rows@.len() == before.rows@.len() + 1
            &&& after.rows@.drop_last() == before.rows@
            &&& after.rows@.last().events@ == before.row@.push(ev)
            &&& after.rows@.last().has_placeholder == before.row_has_placeholder
        } else {
            &&& after.in_row
            &&& after.rows == before.rows
            &&& after.key == before.key
            &&& after.row@ == before.row@.push(ev)
            &&& after.row_has_placeholder == before.row_has_placeholder
            &&& after.row_first_text == before.row_first_text
        }
    }
}

impl TableCapture {
    /// An empty capture, right after a table's start tag.
    pub fn new() -> (r: Self)
        ensures
            r.other@.len() == 0,
            r.rows@.len() == 0,
            r.key is None,
            !r.in_row,
    {
        TableCapture {
            other: Vec::new(),
            rows: Vec::new(),
            key: None,
            row: Vec::new(),
            in_row: false,
            depth: 0,
            row_has_placeholder: false,
            row_first_text: true,
        }
    }

    fn capture_text(&mut self, t: String)
        requires
            old(self).in_row,
        ensures
            final(self).in_row,
            final(self).other == old(self).other,
            final(self).rows == old(self).rows,
            text_captured(*old(self), *final(self), t),
    {
        if has_placeholder(t.as_str()) {
            self.row_has_placeholder = true;
        }
        let first = self.row_first_text;
        self.row_first_text = false;
        if first && self.key.is_none() {
            let tc = chars_of(t.as_str());
            if has_prefix(tc.as_slice(), "{{#") {
                let close = chars_of("}}");
                proof {
                    reveal_strlit("{{#");
                }
                match find_chars(tc.as_slice(), close.as_slice(), 3) {
                    Some(pos) => {
                        proof {
                            reveal_strlit("}}");
                            lemma_find_from_range(tc@, close@, 3);
                            assert(close@.len() == 2);
                        }
                        assert(pos + 2 <= tc.len());
                        let key = string_of(slice_subrange(tc.as_slice(), 3, pos));
                        let marker = slice_subrange(tc.as_slice(), 0, pos + 2);
                        assert(marker@ =~= tc@.take(pos + 2));
                        let stripped = remove_all_chars(tc.as_slice(), marker);
                        self.key = Some(key);
                        self.row.push(XmlEvent::Text(string_of(stripped.as_slice())));
                        return ;
                    },
                    None => {},
                }
            }
        }
        self.row.push(XmlEvent::Text(t));
    }

    /// Takes the next event of the table. `Ok(true)` when it closes the table;
    /// `Err(NestedTable)` exactly when it starts another table.
    pub fn capture_event(&mut self, ev: XmlEvent) -> (r: Result<bool, EngineError>)
        ensures
            r == Err::<bool, EngineError>(EngineError::NestedTable) <==> is_start_named(ev, "w:tbl"@),
            r matches Err(e) ==> e == EngineError::NestedTable,
            r == Ok::<bool, EngineError>(true) <==> !old(self).in_row && is_end_named(ev, "w:tbl"@),
            r == Ok::<bool, EngineError>(true) ==> *final(self) == *old(self),
            r is Err ==> *final(self) == *old(self),
            r is Ok ==> event_captured(*old(self), *final(self), ev),
    {
        proof {
            reveal_strlit("w:tbl");
            reveal_strlit("w:tr");
        }
        match &ev {
            XmlEvent::Start(t) => {
                if is_name(&t.name, "w:tbl") {
                    return Err(EngineError::NestedTable);
                }
            },
            _ => {},
        }
        let ghost before = *self;
        if self.in_row {
            match ev {
                XmlEvent::Start(t) => {
                    if is_name(&t.name, "w:tr") && self.depth < usize::MAX {
                        self.depth = self.depth + 1;
                    }
                    self.row.push(XmlEvent::Start(t));
                },
                XmlEvent::End(n) => {
                    let closes = is_name(&n, "w:tr");
                    self.row.push(XmlEvent::End(n));
                    if closes {
                        if self.depth <= 1 {
                            let events = self.row.split_off(0);
                            assert(events@ =~= before.row@.push(ev));
                            let ghost before_rows = self.rows@;
                            self.rows.push(CapturedRow { events, has_placeholder: self.row_has_placeholder });
                            assert(self.rows@.drop_last() =~= before_rows);
                            self.in_row = false;
                            self.depth = 0;
                        } else {
                            self.depth = self.depth - 1;
                        }
                    }
                },
                XmlEvent::Text(t) => {
                    self.capture_text(t);
                },
                other => {
                    self.row.push(other);
                },
            }
            Ok(false)
        } else {
            match ev {
                XmlEvent::Start(t) => {
                    if is_name(&t.name, "w:tr") {
                        self.row = Vec::new();
                        self.row.push(XmlEvent::Start(t));
                        assert(self.row@ =~= seq![ev]);
                        self.in_row = true;
                        self.depth = 1;
                        self.row_has_placeholder = false;
                        self.row_first_text = true;
                    } else {
                        self.other.push(XmlEvent::Start(t));
                    }
                    Ok(false)
                },
                XmlEvent::End(n) => {
                    if is_name(&n, "w:tbl") {
                        Ok(true)
                    } else {
                        self.other.push(XmlEvent::End(n));
                        Ok(false)
                    }
                },
                other => {
                    self.other.push(other);
                    Ok(false)
                },
            }
        }
    }
}

/// The markup of a sequence of events.
pub open spec fn events_markup(es: Seq<XmlEvent>) -> Seq<char>
    decreases es.len(),
{
    if es.len() == 0 {
        Seq::empty()
    } else {
        events_markup(es.drop_last()) + event_markup(es.last())
    }
}

/// Appends the markup of events.
pub fn write_events(out: &mut String, es: &Vec<XmlEvent>)
    ensures
        final(out)@ == old(out)@ + events_markup(es@),
{
    let mut i: usize = 0;
    while i < es.len()
        invariant
            i <= es@.len(),
            out@ == old(out)@ + events_markup(es@.take(i as int)),
        decreases es@.len() - i,
    {
        assert(es@.take(i + 1).drop_last() =~= es@.take(i as int));
        write_event(out, &es[i]);
        i = i + 1;
    }
    assert(es@.take(i as int) =~= es@);
}

/// The markup of the rows among `rows[..n]` that hold no placeholder.
pub open spec fn headers_markup(rows: Seq<CapturedRow>, n: nat) -> Seq<char>
    decreases n,
{
    if n == 0 || n > rows.len() {
        Seq::empty()
    } else {
        headers_markup(rows, (n - 1) as nat) + if rows[n - 1].has_placeholder {
            Seq::empty()
        } else {
            events_markup(rows[n - 1].events@)
        }
    }
}

/// `ss[..n]` joined.
pub open spec fn concat(ss: Seq<Seq<char>>, n: nat) -> Seq<char>
    decreases n,
{
    if n == 0 || n > ss.len() {
        Seq::empty()
    } else {
        concat(ss, (n - 1) as nat) + ss[n - 1]
    }
}

/// The index of the last row among `rows[..n]` that holds a placeholder, or -1: the row
/// that drives expansion.
pub open spec fn template_index(rows: Seq<CapturedRow>, n: nat) -> int
    decreases n,
{
    if n == 0 || n > rows.len() {
        -1
    } else if rows[n - 1].has_placeholder {
        n - 1
    } else {
        template_index(rows, (n - 1) as nat)
    }
}

/// The records of the elements `items[..n]`, each flattened, in order.
pub open spec fn flatten_all(items: Seq<JsonView>, n: nat) -> Seq<RecordView>
    decreases n,
{
    if n == 0 || n > items.len() {
        Seq::empty()
    } else {
        flatten_all(items, (n - 1) as nat) + flatten(items[n - 1])
    }
}

/// The elements of the array that the table's loop key maps to, if it is an array.
pub open spec fn loop_items(table: TableCapture, ph: RecordView) -> Option<Seq<JsonView>> {
    match table.key {
        Some(k) => match rec_get(ph, k@) {
            Some(JsonView::Array(items, _)) => Some(items),
            _ => None,
        },
        None => None,
    }
}

/// Whether the table's rows are expanded: its loop key maps to an array and a row
/// holds a placeholder.
pub open spec fn expands(table: TableCapture, ph: RecordView) -> bool {
    loop_items(table, ph) is Some && template_index(table.rows@, table.rows@.len()) >= 0
}

/// The records that drive the expansion.
pub open spec fn loop_records(table: TableCapture, ph: RecordView) -> Seq<RecordView> {
    let items = loop_items(table, ph)->0;
    flatten_all(items, items.len())
}

/// An expanded table: the table start, the events outside rows, the rows without
/// placeholder as they were, then one generated row per record (see
/// [`write_rows_with_merge`]), and the table end.
pub open spec fn expanded_table<H: ValueExt>(
    h: H,
    table: TableCapture,
    ph: RecordView,
    out: Seq<char>,
    start: (ImagesView, RelsView),
    end: (ImagesView, RelsView),
) -> bool {
    let tmpl = table.rows@[template_index(table.rows@, table.rows@.len())].events@;
    let recs = loop_records(table, ph);
    let vals = all_row_values(h, tmpl, recs);
    exists|rs: Seq<Seq<char>>|
        {
            &&& rs.len() == recs.len()
            &&& rows_match(tmpl, vals, rs, start, end)
            &&& out == "<w:tbl>"@ + events_markup(table.other@) + headers_markup(
                table.rows@,
                table.rows@.len(),
            ) + #[trigger] concat(rs, rs.len()) + "</w:tbl>"@
        }
}

/// The markup of `es[..n]` written once with plain substitution: each text gives its
/// handler text, or, where that is an image payload, the image's markup `imgs[i]`.
pub open spec fn plain_markup<H: ValueExt>(
    h: H,
    ph: RecordView,
    es: Seq<XmlEvent>,
    imgs: Seq<Seq<char>>,
    n: nat,
) -> Seq<char>
    decreases n,
{
    if n == 0 || n > es.len() {
        Seq::empty()
    } else {
        plain_markup(h, ph, es, imgs, (n - 1) as nat) + match es[n - 1] {
            XmlEvent::Text(x) => if is_image_payload(h.plain_text(x@, ph)) {
                imgs[n - 1]
            } else {
                h.plain_text(x@, ph)
            },
            e => event_markup(e),
        }
    }
}

/// The rows `rows[..n]` written once with plain substitution.
pub open spec fn plain_rows<H: ValueExt>(
    h: H,
    ph: RecordView,
    rows: Seq<CapturedRow>,
    imgs: Seq<Seq<Seq<char>>>,
    n: nat,
) -> Seq<char>
    decreases n,
{
    if n == 0 || n > rows.len() {
        Seq::empty()
    } else {
        plain_rows(h, ph, rows, imgs, (n - 1) as nat) + plain_markup(
            h,
            ph,
            rows[n - 1].events@,
            imgs[n - 1],
            rows[n - 1].events@.len(),
        )
    }
}

/// The plain substitution of each event of `es` (nothing for an event that is no text).
pub open spec fn plain_vals<H: ValueExt>(h: H, ph: RecordView, es: Seq<XmlEvent>) -> Seq<Seq<char>> {
    Seq::new(
        es.len(),
        |i: int|
            if es[i] is Text {
                h.plain_text(es[i]->Text_0@, ph)
            } else {
                Seq::empty()
            },
    )
}

/// For each event of `es`, whether writing it embeds an image.
pub open spec fn plain_embeds<H: ValueExt>(h: H, ph: RecordView, es: Seq<XmlEvent>) -> Seq<bool> {
    Seq::new(es.len(), |i: int| es[i] is Text && is_image_payload(h.plain_text(es[i]->Text_0@, ph)))
}

/// The managers' states through the rows written with plain substitution: within row
/// `i` they follow `sts[i]` ([`image_chain`]), each row starts where the one before
/// ended, and they run from `start` to `end`.
pub open spec fn plain_chain<H: ValueExt>(
    h: H,
    ph: RecordView,
    rows: Seq<CapturedRow>,
    imgs: Seq<Seq<Seq<char>>>,
    sts: Seq<Seq<(ImagesView, RelsView)>>,
    start: (ImagesView, RelsView),
    end: (ImagesView, RelsView),
) -> bool {
    &&& sts.len() == rows.len()
    &&& forall|i: int|
        0 <= i < rows.len() ==> image_chain(
            plain_vals(h, ph, rows[i].events@),
            imgs[i],
            plain_embeds(h, ph, rows[i].events@),
            #[trigger] sts[i],
        )
    &&& forall|i: int| 0 <= i < rows.len() - 1 ==> (#[trigger] sts[i]).last() == sts[i + 1][0]
    &&& rows.len() == 0 ==> start == end
    &&& rows.len() > 0 ==> sts[0][0] == start && sts.last().last() == end
}

/// Every text event of `es` whose plain substitution is an image payload gives valid
/// base64.
pub open spec fn plain_decodes<H: ValueExt>(h: H, ph: RecordView, es: Seq<XmlEvent>) -> bool {
    forall|i: int|
        0 <= i < es.len() && (#[trigger] es[i]) is Text && is_image_payload(
            h.plain_text(es[i]->Text_0@, ph),
        ) ==> base64_decoded(h.plain_text(es[i]->Text_0@, ph)) is Some
}

/// The number of events in the rows `rows[..n]`.
pub open spec fn total_events(rows: Seq<CapturedRow>, n: nat) -> nat
    decreases n,
{
    if n == 0 || n > rows.len() {
        0
    } else {
        total_events(rows, (n - 1) as nat) + rows[n - 1].events@.len()
    }
}

/// When writing a table cannot fail: every image payload it would embed is valid
/// base64, and the relationship ids cannot run out (`next_id` is the next id).
pub open spec fn table_images_ok<H: ValueExt>(
    h: H,
    table: TableCapture,
    ph: RecordView,
    next_id: nat,
) -> bool {
    if expands(table, ph) {
        let tmpl = table.rows@[template_index(table.rows@, table.rows@.len())].events@;
        let vals = all_row_values(h, tmpl, loop_records(table, ph));
        &&& forall|i: int| 0 <= i < vals.len() ==> images_decode(#[trigger] vals[i])
        &&& next_id + total_values(vals, vals.len()) <= u64::MAX
    } else {
        &&& forall|i: int|
            0 <= i < table.rows@.len() ==> plain_decodes(h, ph, (#[trigger] table.rows@[i]).events@)
        &&& next_id + total_events(table.rows@, table.rows@.len()) <= u64::MAX
    }
}

/// A table that is not expanded: the table start, the events outside rows, every row
/// once in order with plain substitution, and the table end.
pub open spec fn plain_table<H: ValueExt>(
    h: H,
    table: TableCapture,
    ph: RecordView,
    out: Seq<char>,
    start: (ImagesView, RelsView),
    end: (ImagesView, RelsView),
) -> bool {
    exists|imgs: Seq<Seq<Seq<char>>>, sts: Seq<Seq<(ImagesView, RelsView)>>|
        {
            &&& out == "<w:tbl>"@ + events_markup(table.other@) + plain_rows(
                h,
                ph,
                table.rows@,
                imgs,
                table.rows@.len(),
            ) + "</w:tbl>"@
            &&& #[trigger] plain_chain(h, ph, table.rows@, imgs, sts, start, end)
        }
}

fn find_template(rows: &Vec<CapturedRow>) -> (r: Option<usize>)
    ensures
        match r {
            Some(t) => t as int == template_index(rows@, rows@.len()) && t < rows@.len(),
            None => template_index(rows@, rows@.len()) == -1,
        },
{
    let mut n: usize = rows.len();
    while n > 0
        invariant
            n <= rows@.len(),
            template_index(rows@, rows@.len()) == template_index(rows@, n as nat),
        decreases n,
    {
        if rows[n - 1].has_placeholder {
            return Some(n - 1);
        }
        n = n - 1;
    }
    None
}

fn loop_list<'a>(table: &TableCapture, ph: &'a Record) -> (r: Option<&'a Vec<JsonValue>>)
    ensures
        match r {
            Some(l) => loop_items(*table, record_view(ph@)) == Some(
                Seq::new(l@.len(), |i: int| l@[i]@),
            ),
            None => loop_items(*table, record_view(ph@)) is None,
        },
{
    match &table.key {
        Some(k) => {
            proof {
                lemma_key_index_range(record_view(ph@), k@);
            }
            match find_key(ph, k) {
                Some(i) => match &ph[i].1 {
                    JsonValue::Array(l, _) => {
                        assert(ph@[i as int].1@->Array_0 =~= Seq::new(l@.len(), |j: int| l@[j]@));
                        Some(l)
                    },
                    _ => None,
                },
                None => None,
            }
        },
        None => None,
    }
}

fn flatten_items(list: &Vec<JsonValue>) -> (r: Vec<Record>)
    ensures
        records_view(r@) == flatten_all(Seq::new(list@.len(), |i: int| list@[i]@), list@.len()),
{
    let ghost items = Seq::new(list@.len(), |i: int| list@[i]@);
    let mut out: Vec<Record> = Vec::new();
    let mut i: usize = 0;
    assert(records_view(out@) =~= flatten_all(items, 0));
    while i < list.len()
        invariant
            i <= list@.len(),
            items == Seq::new(list@.len(), |i: int| list@[i]@),
            records_view(out@) == flatten_all(items, i as nat),
        decreases list@.len() - i,
    {
        let mut sub = flatten_json(&list[i]);
        let ghost before = records_view(out@);
        let ghost sv = records_view(sub@);
        out.append(&mut sub);
        assert(records_view(out@) =~= before + sv);
        i = i + 1;
    }
    out
}

fn write_headers(out: &mut String, rows: &Vec<CapturedRow>)
    ensures
        final(out)@ == old(out)@ + headers_markup(rows@, rows@.len()),
{
    let mut i: usize = 0;
    while i < rows.len()
        invariant
            i <= rows@.len(),
            out@ == old(out)@ + headers_markup(rows@, i as nat),
        decreases rows@.len() - i,
    {
        if !rows[i].has_placeholder {
            write_events(out, &rows[i].events);
        }
        assert(out@ =~= old(out)@ + headers_markup(rows@, (i + 1) as nat));
        i = i + 1;
    }
}

fn write_plain_events<H: ValueExt>(
    out: &mut String,
    handler: &H,
    ph: &Record,
    es: &Vec<XmlEvent>,
    images: &mut ImageManager,
    rels: &mut RelationshipManager,
) -> (r: Result<Ghost<(Seq<Seq<char>>, Seq<(ImagesView, RelsView)>)>, EngineError>)
    requires
        old(images)@.milli_dpi > 0,
    ensures
        final(images)@.milli_dpi == old(images)@.milli_dpi,
        final(rels)@.next_id <= old(rels)@.next_id + es@.len(),
        r matches Err(e) ==> e is Image,
        plain_decodes(*handler, record_view(ph@), es@) && old(rels)@.next_id + es@.len()
            <= u64::MAX ==> r is Ok,
        r matches Ok(g) ==> final(out)@ == old(out)@ + plain_markup(
            *handler,
            record_view(ph@),
            es@,
            g@.0,
            es@.len(),
        ) && image_chain(
            plain_vals(*handler, record_view(ph@), es@),
            g@.0,
            plain_embeds(*handler, record_view(ph@), es@),
            g@.1,
        ) && g@.1[0] == (old(images)@, old(rels)@) && g@.1.last() == (final(images)@, final(rels)@),
{
    let ghost phv = record_view(ph@);
    let ghost pv = plain_vals(*handler, phv, es@);
    let ghost pe = plain_embeds(*handler, phv, es@);
    let ghost mut st: Seq<(ImagesView, RelsView)> = seq![(images@, rels@)];
    let ghost mut imgs: Seq<Seq<char>> = Seq::new(es@.len(), |i: int| Seq::<char>::empty());
    let mut i: usize = 0;
    while i < es.len()
        invariant
            i <= es@.len(),
            phv == record_view(ph@),
            imgs.len() == es@.len(),
            images@.milli_dpi == old(images)@.milli_dpi,
            images@.milli_dpi > 0,
            rels@.next_id <= old(rels)@.next_id + i,
            out@ == old(out)@ + plain_markup(*handler, phv, es@, imgs, i as nat),
            pv == plain_vals(*handler, phv, es@),
            pe == plain_embeds(*handler, phv, es@),
            image_chain(pv, imgs, pe.take(i as int), st),
            st[0] == (old(images)@, old(rels)@),
            st.last() == (images@, rels@),
        decreases es@.len() - i,
    {
        let ghost prev = imgs;
        let ghost prev_st = st;
        let ghost before = (images@, rels@);
        match &es[i] {
            XmlEvent::Text(x) => {
                let v = handler.replace(x.as_str(), ph);
                if image_payload(v.as_str()) {
                    let m = match images.embed_image(v.as_str(), rels) {
                        Ok(m) => m,
                        Err(e) => {
                            return Err(EngineError::Image(e));
                        },
                    };
                    out.append(m.as_str());
                    proof {
                        imgs = imgs.update(i as int, m@);
                    }
                } else {
                    out.append(v.as_str());
                }
            },
            e => {
                write_event(out, e);
            },
        }
        proof {
            lemma_plain_frame(*handler, phv, es@, prev, imgs, i as nat);
            st = st.push((images@, rels@));
            let emb = pe.take(i + 1);
            assert forall|k: int| 0 <= k < emb.len() implies if #[trigger] emb[k] {
                crate::image::embedded_markup(st[k].0, st[k + 1].0, st[k].1, st[k + 1].1, pv[k], imgs[k])
            } else {
                st[k + 1] == st[k]
            } by {
                if k < i {
                    assert(emb[k] == pe.take(i as int)[k]);
                    assert(imgs[k] == prev[k]);
                    assert(st[k] == prev_st[k] && st[k + 1] == prev_st[k + 1]);
                } else {
                    assert(st[k] == before);
                }
            }
        }
        i = i + 1;
    }
    assert(pe.take(i as int) =~= pe);
    Ok(Ghost((imgs, st)))
}

proof fn lemma_total_events_mono(rows: Seq<CapturedRow>, m: nat, n: nat)
    requires
        m <= n <= rows.len(),
    ensures
        total_events(rows, m) <= total_events(rows, n),
    decreases n - m,
{
    if m < n {
        lemma_total_events_mono(rows, m, (n - 1) as nat);
    }
}

proof fn lemma_plain_frame<H: ValueExt>(
    h: H,
    ph: RecordView,
    es: Seq<XmlEvent>,
    a: Seq<Seq<char>>,
    b: Seq<Seq<char>>,
    n: nat,
)
    requires
        forall|i: int| 0 <= i < n ==> a[i] == b[i],
    ensures
        plain_markup(h, ph, es, a, n) == plain_markup(h, ph, es, b, n),
    decreases n,
{
    if n > 0 {
        lemma_plain_frame(h, ph, es, a, b, (n - 1) as nat);
    }
}

proof fn lemma_plain_rows_frame<H: ValueExt>(
    h: H,
    ph: RecordView,
    rows: Seq<CapturedRow>,
    a: Seq<Seq<Seq<char>>>,
    b: Seq<Seq<Seq<char>>>,
    n: nat,
)
    requires
        forall|i: int| 0 <= i < n ==> a[i] == b[i],
    ensures
        plain_rows(h, ph, rows, a, n) == plain_rows(h, ph, rows, b, n),
    decreases n,
{
    if n > 0 {
        lemma_plain_rows_frame(h, ph, rows, a, b, (n - 1) as nat);
    }
}

/// Writes a captured table back. Where its loop key maps to an array and a row holds a
/// placeholder, the rows without placeholder are written as they were and the last row
/// with one is written once per flattened record of the array's elements, with
/// vertical merges; otherwise every row is written once with plain substitution.
pub fn write_table<H: ValueExt>(
    handler: &H,
    placeholders: &Record,
    table: &TableCapture,
    images: &mut ImageManager,
    rels: &mut RelationshipManager,
) -> (r: Result<String, EngineError>)
    requires
        old(images)@.milli_dpi > 0,
    ensures
        final(images)@.milli_dpi == old(images)@.milli_dpi,
        r matches Err(e) ==> e is Image,
        table_images_ok(*handler, *table, record_view(placeholders@), old(rels)@.next_id) ==> r is Ok,
        r matches Ok(out) ==> if expands(*table, record_view(placeholders@)) {
            expanded_table(
                *handler,
                *table,
                record_view(placeholders@),
                out@,
                (old(images)@, old(rels)@),
                (final(images)@, final(rels)@),
            )
        } else {
            plain_table(
                *handler,
                *table,
                record_view(placeholders@),
                out@,
                (old(images)@, old(rels)@),
                (final(images)@, final(rels)@),
            )
        },
{
    let ghost phv = record_view(placeholders@);
    let mut out = String::from_str("<w:tbl>");
    write_events(&mut out, &table.other);
    let ghost head = out@;
    let tmpl = find_template(&table.rows);
    let list = loop_list(table, placeholders);
    if tmpl.is_some() && list.is_some() {
        let t = tmpl.unwrap();
        let l = list.unwrap();
        write_headers(&mut out, &table.rows);
        let records = flatten_items(l);
        let rows = write_rows_with_merge(handler, &table.rows[t].events, &records, images, rels)?;
        let ghost mid = out@;
        let mut k: usize = 0;
        while k < rows.len()
            invariant
                k <= rows@.len(),
                out@ == mid + concat(Seq::new(rows@.len(), |j: int| rows@[j]@), k as nat),
            decreases rows@.len() - k,
        {
            out.append(rows[k].as_str());
            k = k + 1;
        }
        out.append("</w:tbl>");
        proof {
            let rs = Seq::new(rows@.len(), |j: int| rows@[j]@);
            let tv = table.rows@[t as int].events@;
            let recs = loop_records(*table, phv);
            assert(records_view(records@) == recs);
            let vals = all_row_values(*handler, tv, recs);
            assert(rs =~= Seq::new(rows@.len(), |i: int| rows@[i]@));
            assert(out@ == "<w:tbl>"@ + events_markup(table.other@) + headers_markup(
                table.rows@,
                table.rows@.len(),
            ) + concat(rs, rs.len()) + "</w:tbl>"@);
        }
        Ok(out)
    } else {
        let ghost mut imgs: Seq<Seq<Seq<char>>> = Seq::new(table.rows@.len(), |i: int| Seq::<Seq<char>>::empty());
        let ghost mut sts: Seq<Seq<(ImagesView, RelsView)>> = Seq::empty();
        let mut i: usize = 0;
        while i < table.rows.len()
            invariant
                i <= table.rows@.len(),
                phv == record_view(placeholders@),
                imgs.len() == table.rows@.len(),
                images@.milli_dpi == old(images)@.milli_dpi,
                images@.milli_dpi > 0,
                rels@.next_id <= old(rels)@.next_id + total_events(table.rows@, i as nat),
                !expands(*table, phv),
                out@ == head + plain_rows(*handler, phv, table.rows@, imgs, i as nat),
                sts.len() == i,
                forall|j: int|
                    0 <= j < i ==> image_chain(
                        plain_vals(*handler, phv, table.rows@[j].events@),
                        imgs[j],
                        plain_embeds(*handler, phv, table.rows@[j].events@),
                        #[trigger] sts[j],
                    ),
                forall|j: int| 0 <= j < i - 1 ==> (#[trigger] sts[j]).last() == sts[j + 1][0],
                i == 0 ==> (images@, rels@) == (old(images)@, old(rels)@),
                i > 0 ==> sts[0][0] == (old(images)@, old(rels)@) && sts.last().last() == (
                    images@,
                    rels@,
                ),
            decreases table.rows@.len() - i,
        {
            let ghost prev = imgs;
            let ghost prev_sts = sts;
            proof {
                lemma_total_events_mono(table.rows@, (i + 1) as nat, table.rows@.len());
            }
            let g = write_plain_events(&mut out, handler, placeholders, &table.rows[i].events, images, rels)?;
            proof {
                imgs = imgs.update(i as int, g@.0);
                sts = sts.push(g@.1);
                lemma_plain_rows_frame(*handler, phv, table.rows@, prev, imgs, i as nat);
                assert forall|j: int| 0 <= j < i + 1 implies image_chain(
                    plain_vals(*handler, phv, table.rows@[j].events@),
                    imgs[j],
                    plain_embeds(*handler, phv, table.rows@[j].events@),
                    #[trigger] sts[j],
                ) by {
                    if j < i {
                        assert(sts[j] == prev_sts[j]);
                        assert(imgs[j] == prev[j]);
                    }
                }
                assert forall|j: int| 0 <= j < i implies (#[trigger] sts[j]).last() == sts[j + 1][0] by {
                    if j < i - 1 {
                        assert(sts[j] == prev_sts[j] && sts[j + 1] == prev_sts[j + 1]);
                    }
                }
            }
            i = i + 1;
        }
        out.append("</w:tbl>");
        proof {
            assert(out@ == "<w:tbl>"@ + events_markup(table.other@) + plain_rows(
                *handler,
                phv,
                table.rows@,
                imgs,
                table.rows@.len(),
            ) + "</w:tbl>"@);
            assert(plain_chain(
                *handler,
                phv,
                table.rows@,
                imgs,
                sts,
                (old(images)@, old(rels)@),
                (images@, rels@),
            ));
        }
        Ok(out)
    }
}

} // verus!
