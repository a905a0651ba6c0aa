//! The streaming rewriter of a document body: events in, markup out, one event at a time.
use vstd::prelude::*;
use vstd::string::StringExecFns;
use crate::handler::ValueExt;
use crate::image::{ImageManager, base64_decoded, embedded_markup};
use crate::rels::RelationshipManager;
use crate::table::{
    TableCapture, event_captured, expanded_table, expands, is_end_named, is_start_named, plain_table,
    table_images_ok, write_table,
};
use crate::template::{EngineError, XmlEvent, XmlTag, event_markup, image_payload, is_image_payload, is_name, write_event};
use crate::value::{Record, RecordView, record_view};

verus! {

/// Rewrites a document body event by event: placeholders in text holders are
/// substituted, image payloads become drawings, and tables are captured and written
/// back expanded once they close.
pub struct Engine<H: ValueExt> {
    pub handler: H,
    pub placeholders: Record,
    /// Inside a text holder (`w:t`) whose text is substituted.
    pub inside_text: bool,
    /// A text holder start held back until its first event shows whether it is an image.
    pub pending_start: Option<XmlTag>,
    /// An image replaced a text holder: its events are dropped up to its end tag.
    pub suppress: bool,
    /// The table being captured, if any.
    pub table: Option<TableCapture>,
}

/// An event that passes through unchanged when the engine is idle: neither text nor the
/// start of a table or of a text holder.
pub open spec fn passes_through(e: XmlEvent) -> bool {
    match e {
        XmlEvent::Start(t) => t.name@ != "w:tbl"@ && t.name@ != "w:t"@,
        XmlEvent::Text(_) => false,
        XmlEvent::End(n) => n@ != "w:t"@,
        _ => true,
    }
}

/// A capture that holds nothing yet and is outside any row.
pub open spec fn fresh_capture(t: TableCapture) -> bool {
    t.other@.len() == 0 && t.rows@.len() == 0 && t.key is None && !t.in_row
}

/// What an idle engine writes for an event: nothing for the start of a table or of a
/// text holder; a text substituted inside a text holder (`inside`) and as it is outside
/// one; any other event as it was.
pub open spec fn idle_output<H: ValueExt>(h: H, ph: RecordView, inside: bool, ev: XmlEvent) -> Seq<
    char,
> {
    if is_start_named(ev, "w:tbl"@) || is_start_named(ev, "w:t"@) {
        Seq::empty()
    } else {
        match ev {
            XmlEvent::Text(x) => if inside {
                h.plain_text(x@, ph)
            } else {
                x@
            },
            _ => event_markup(ev),
        }
    }
}

/// The state an idle engine is left in after an event, and what it writes: a table
/// start begins an empty capture; a text holder start is held back; anything else
/// leaves it idle, a `</w:t>` outside the text holder.
pub open spec fn idle_effect<H: ValueExt>(
    h: H,
    ph: RecordView,
    inside: bool,
    after: Engine<H>,
    ev: XmlEvent,
    out: Seq<char>,
) -> bool {
    &&& out == idle_output(h, ph, inside, ev)
    &&& !after.suppress
    &&& if is_start_named(ev, "w:tbl"@) {
        &&& after.table matches Some(t) && fresh_capture(t)
        &&& after.pending_start is None
        &&& after.inside_text == inside
    } else if is_start_named(ev, "w:t"@) {
        &&& after.table is None
        &&& after.pending_start == Some(ev->Start_0)
        &&& after.inside_text == inside
    } else {
        &&& after.idle()
        &&& after.inside_text == (inside && !is_end_named(ev, "w:t"@))
    }
}

impl<H: ValueExt> Engine<H> {
    /// An engine at the start of a body.
    pub fn new(handler: H, placeholders: Record) -> (r: Self)
        ensures
            r.idle(),
            r.wf(),
            !r.inside_text,
            r.handler == handler,
            r.placeholders == placeholders,
    {
        Engine {
            handler,
            placeholders,
            inside_text: false,
            pending_start: None,
            suppress: false,
            table: None,
        }
    }

    /// Whether the event may embed an image: it closes the table being captured, or it
    /// is the first event of a held-back text holder.
    pub open spec fn may_embed(&self, ev: XmlEvent) -> bool {
        ||| self.table is Some && !self.table->0.in_row && is_end_named(ev, "w:tbl"@)
        ||| self.table is None && !self.suppress && self.pending_start is Some && ev is Text
    }

    /// The engine's states fit together: while a table is captured no text holder start
    /// is held back and nothing is dropped, and while events are dropped no start is held
    /// back.
    pub open spec fn wf(&self) -> bool {
        &&& self.table is Some ==> self.pending_start is None && !self.suppress
        &&& self.suppress ==> self.pending_start is None
    }

    /// No table is being captured, no text holder start is held back, nothing is dropped.
    pub open spec fn idle(&self) -> bool {
        self.table is None && self.pending_start is None && !self.suppress
    }

    fn process(
        &mut self,
        ev: XmlEvent,
    ) -> (r: String)
        requires
            old(self).idle(),
        ensures
            final(self).handler == old(self).handler,
            final(self).placeholders == old(self).placeholders,
            !final(self).suppress,
            passes_through(ev) ==> r@ == event_markup(ev) && final(self).idle()
                && final(self).inside_text == old(self).inside_text,
            ev matches XmlEvent::Text(x) ==> final(self).idle() && final(self).inside_text
                == old(self).inside_text && r@ == if old(self).inside_text {
                old(self).handler.plain_text(x@, record_view(old(self).placeholders@))
            } else {
                x@
            },
            is_start_named(ev, "w:tbl"@) ==> r@.len() == 0 && final(self).table is Some
                && final(self).pending_start is None,
            is_end_named(ev, "w:t"@) ==> r@ == event_markup(ev) && final(self).idle()
                && !final(self).inside_text,
            is_start_named(ev, "w:t"@) ==> r@.len() == 0 && final(self).pending_start == Some(
                ev->Start_0,
            ) && final(self).table is None && !final(self).suppress && final(self).inside_text
                == old(self).inside_text,
            idle_effect(
                old(self).handler,
                record_view(old(self).placeholders@),
                old(self).inside_text,
                *final(self),
                ev,
                r@,
            ),
    {
        proof {
            reveal_strlit("");
            reveal_strlit("w:t");
            reveal_strlit("w:tbl");
        }
        match ev {
            XmlEvent::Start(tag) => {
                if is_name(&tag.name, "w:tbl") {
                    assert("w:tbl"@ != "w:t"@) by {
                        assert("w:tbl"@.len() != "w:t"@.len());
                    }
                    self.table = Some(TableCapture::new());
                    String::new()
                } else if is_name(&tag.name, "w:t") {
                    self.pending_start = Some(tag);
                    String::new()
                } else {
                    let mut out = String::new();
                    let e = XmlEvent::Start(tag);
                    write_event(&mut out, &e);
                    out
                }
            },
            XmlEvent::Text(x) => {
                if self.inside_text {
                    self.handler.replace(x.as_str(), &self.placeholders)
                } else {
                    x
                }
            },
            XmlEvent::End(n) => {
                if is_name(&n, "w:t") {
                    self.inside_text = false;
                }
                let mut out = String::new();
                let e = XmlEvent::End(n);
                write_event(&mut out, &e);
                out
            },
            e => {
                let mut out = String::new();
                write_event(&mut out, &e);
                out
            },
        }
    }

    /// Takes the next event of the body and returns the markup it gives now.
    ///
    /// When idle, an event that is neither text nor the start of a table or text holder
    /// comes back unchanged; text comes back substituted inside a text holder and
    /// unchanged outside one. A table start gives nothing until the table closes, and a
    /// table start inside a table fails.
    pub fn feed(
        &mut self,
        ev: XmlEvent,
        images: &mut ImageManager,
        rels: &mut RelationshipManager,
    ) -> (r: Result<String, EngineError>)
        requires
            old(images)@.milli_dpi > 0,
        ensures
            final(images)@.milli_dpi == old(images)@.milli_dpi,
            final(self).handler == old(self).handler,
            final(self).placeholders == old(self).placeholders,
            old(self).wf() ==> final(self).wf(),
            old(self).idle() ==> (r matches Ok(s) && idle_effect(
                old(self).handler,
                record_view(old(self).placeholders@),
                old(self).inside_text,
                *final(self),
                ev,
                s@,
            )),
            old(self).table is Some && !is_start_named(ev, "w:tbl"@) && !(
            !old(self).table->0.in_row && is_end_named(ev, "w:tbl"@)) ==> (r matches Ok(s)
                && s@.len() == 0 && final(self).table is Some && event_captured(
                old(self).table->0,
                final(self).table->0,
                ev,
            ) && final(self).pending_start == old(self).pending_start && final(self).suppress
                == old(self).suppress && final(self).inside_text == old(self).inside_text),
            old(self).table is Some && !old(self).table->0.in_row && is_end_named(ev, "w:tbl"@)
                ==> (r is Ok ==> final(self).table is None && final(self).pending_start == old(
                self,
            ).pending_start && final(self).suppress == old(self).suppress && final(self).inside_text
                == old(self).inside_text),
            old(self).table is None && !old(self).suppress && old(self).pending_start is Some
                && !(ev is Text) ==> (r matches Ok(s) && s@ == "<"@
                + old(self).pending_start->0.content@ + ">"@ + idle_output(
                old(self).handler,
                record_view(old(self).placeholders@),
                true,
                ev,
            ) && idle_effect(
                old(self).handler,
                record_view(old(self).placeholders@),
                true,
                *final(self),
                ev,
                idle_output(old(self).handler, record_view(old(self).placeholders@), true, ev),
            )),
            r matches Err(e) ==> e is Image || (e == EngineError::NestedTable && old(self).table is Some
                && is_start_named(ev, "w:tbl"@)),
            old(self).idle() && passes_through(ev) ==> (r matches Ok(s) && s@ == event_markup(ev)
                && final(self).idle() && final(self).inside_text == old(self).inside_text),
            old(self).idle() && ev is Text ==> (r matches Ok(s) && s@ == if old(self).inside_text {
                old(self).handler.plain_text(ev->Text_0@, record_view(old(self).placeholders@))
            } else {
                ev->Text_0@
            }),
            old(self).idle() && is_start_named(ev, "w:tbl"@) ==> (r matches Ok(s) && s@.len() == 0
                && final(self).table is Some),
            old(self).idle() && is_start_named(ev, "w:t"@) ==> (r matches Ok(s) && s@.len() == 0
                && final(self).pending_start == Some(ev->Start_0) && final(self).table is None
                && !final(self).suppress && final(self).inside_text == old(self).inside_text),
            old(self).idle() && is_end_named(ev, "w:t"@) ==> (r matches Ok(s) && s@ == event_markup(
                ev,
            ) && final(self).idle() && !final(self).inside_text),
            !old(self).may_embed(ev) ==> final(images)@ == old(images)@ && final(rels)@ == old(
                rels,
            )@,
            old(self).table is Some && is_start_named(ev, "w:tbl"@) ==> r == Err::<
                String,
                EngineError,
            >(EngineError::NestedTable),
            old(self).table is None && old(self).suppress ==> (r matches Ok(s) && s@.len() == 0
                && final(self).suppress == !is_end_named(ev, "w:t"@) && final(self).table is None
                && final(self).pending_start == old(self).pending_start && final(self).inside_text
                == old(self).inside_text),
            old(self).table is None && !old(self).suppress && old(self).pending_start is Some
                && ev is Text && !is_image_payload(
                old(self).handler.plain_text(ev->Text_0@, record_view(old(self).placeholders@)),
            ) ==> (r matches Ok(s) && s@ == "<"@ + old(self).pending_start->0.content@ + ">"@
                + old(self).handler.plain_text(ev->Text_0@, record_view(old(self).placeholders@))
                && final(self).inside_text && final(self).idle()),
            old(self).table is None && !old(self).suppress && old(self).pending_start is Some
                && ev is Text && is_image_payload(
                old(self).handler.plain_text(ev->Text_0@, record_view(old(self).placeholders@)),
            ) ==> (r matches Ok(s) ==> embedded_markup(
                old(images)@,
                final(images)@,
                old(rels)@,
                final(rels)@,
                old(self).handler.plain_text(ev->Text_0@, record_view(old(self).placeholders@)),
                s@,
            ) && final(self).suppress && !final(self).inside_text && final(self).table is None
                && final(self).pending_start is None) && (base64_decoded(
                old(self).handler.plain_text(ev->Text_0@, record_view(old(self).placeholders@)),
            ) is Some && old(rels)@.next_id < u64::MAX ==> r is Ok),
            old(self).table is Some && !old(self).table->0.in_row && is_end_named(ev, "w:tbl"@)
                && table_images_ok(
                old(self).handler,
                old(self).table->0,
                record_view(old(self).placeholders@),
                old(rels)@.next_id,
            ) ==> r is Ok,
            old(self).table is Some && !old(self).table->0.in_row && is_end_named(ev, "w:tbl"@) ==> (
            r matches Ok(s) ==> if expands(
                old(self).table->0,
                record_view(old(self).placeholders@),
            ) {
                expanded_table(
                    old(self).handler,
                    old(self).table->0,
                    record_view(old(self).placeholders@),
                    s@,
                    (old(images)@, old(rels)@),
                    (final(images)@, final(rels)@),
                )
            } else {
                plain_table(
                    old(self).handler,
                    old(self).table->0,
                    record_view(old(self).placeholders@),
                    s@,
                    (old(images)@, old(rels)@),
                    (final(images)@, final(rels)@),
                )
            }),
    {
        if self.table.is_some() {
            let mut cap = self.table.take().unwrap();
            let done = match cap.capture_event(ev) {
                Ok(d) => d,
                Err(e) => {
                    self.table = Some(cap);
                    return Err(e);
                },
            };
            if done {
                return write_table(&self.handler, &self.placeholders, &cap, images, rels);
            }
            self.table = Some(cap);
            return Ok(String::new());
        }
        if self.suppress {
            match &ev {
                XmlEvent::End(n) => {
                    if is_name(n, "w:t") {
                        self.suppress = false;
                    }
                },
                _ => {},
            }
            return Ok(String::new());
        }
        if self.pending_start.is_some() {
            let tag = self.pending_start.take().unwrap();
            match &ev {
                XmlEvent::Text(x) => {
                    let v = self.handler.replace(x.as_str(), &self.placeholders);
                    if image_payload(v.as_str()) {
                        let m = match images.embed_image(v.as_str(), rels) {
                            Ok(m) => m,
                            Err(e) => {
                                return Err(EngineError::Image(e));
                            },
                        };
                        self.suppress = true;
                        self.inside_text = false;
                        return Ok(m);
                    }
                },
                _ => {},
            }
            self.inside_text = true;
            let mut out = String::new();
            let e = XmlEvent::Start(tag);
            write_event(&mut out, &e);
            let rest = self.process(ev);
            out.append(rest.as_str());
            return Ok(out);
        }
        Ok(self.process(ev))
    }

    /// Ends the body: a text holder start still held back is written; a table still
    /// open fails.
    pub fn finish(&mut self) -> (r: Result<String, EngineError>)
        ensures
            old(self).table is Some <==> r == Err::<String, EngineError>(EngineError::UnclosedTable),
            old(self).table is None && old(self).pending_start is None ==> (r matches Ok(s)
                && s@.len() == 0),
            old(self).table is None ==> final(self).pending_start is None,
            old(self).table is None && old(self).pending_start is Some ==> (r matches Ok(s) && s@
                == "<"@ + old(self).pending_start->0.content@ + ">"@),
    {
        if self.table.is_some() {
            return Err(EngineError::UnclosedTable);
        }
        let mut out = String::new();
        if self.pending_start.is_some() {
            let tag = self.pending_start.take().unwrap();
            let e = XmlEvent::Start(tag);
            write_event(&mut out, &e);
        }
        Ok(out)
    }
}

} // verus!
