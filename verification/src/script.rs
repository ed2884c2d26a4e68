//! Script bridge: the decisions behind the scripting surface of one render
//! pass.
//!
//! The embedded interpreter itself is an external collaborator.  What stands
//! here is everything it delegates to: the navigation context, lookup over
//! the element registry, the capability operations on one primitive, timers,
//! the request plan of the `fetch` primitive, and the module loader's
//! address resolution.  An operation a primitive does not support never
//! fails the script: it logs a warning and returns a neutral value.

use vstd::prelude::*;

use crate::dom::NodeChild;
use crate::page::{Event, LogLevel, Page, PageModel, WidgetKind, WidgetModel};
use crate::render::{spec_add_log, spec_render_elem_children};
use crate::resource::{
    classify_resource, resolve_image_data, spec_classify, spec_image_data, spec_index_of,
    ImageData, ImageDataModel, Route,
};
use crate::style::RuleStore;
use crate::text::{spec_split, spec_starts_with, split_char, starts_with, str_eq};

verus! {

/// True when a primitive of this kind carries textual content a script may
/// read and write.
pub open spec fn spec_supports_content(kind: WidgetKind) -> bool {
    match kind {
        WidgetKind::Label => true,
        WidgetKind::Link => true,
        WidgetKind::TextArea => true,
        WidgetKind::TextInput => true,
        WidgetKind::Button => true,
        _ => false,
    }
}

/// True when a primitive of this kind carries a link target.
pub open spec fn spec_supports_href(kind: WidgetKind) -> bool {
    kind is Link
}

/// True when a primitive of this kind carries a media source.
pub open spec fn spec_supports_source(kind: WidgetKind) -> bool {
    kind is Image || kind is Media
}

/// True when a primitive of this kind groups children a script may replace.
pub open spec fn spec_supports_children(kind: WidgetKind) -> bool {
    kind is Container || kind is List
}

/// True when a primitive of this kind answers this event.
pub open spec fn spec_supports_event(kind: WidgetKind, ev: Event) -> bool {
    match ev {
        Event::Click => true,
        Event::Submit => kind is TextInput,
        Event::Input => kind is TextInput || kind is TextArea,
    }
}

fn supports_content(kind: &WidgetKind) -> (r: bool)
    ensures
        r == spec_supports_content(*kind),
{
    match kind {
        WidgetKind::Label => true,
        WidgetKind::Link => true,
        WidgetKind::TextArea => true,
        WidgetKind::TextInput => true,
        WidgetKind::Button => true,
        _ => false,
    }
}

/// The page with widget `i` replaced.
pub open spec fn spec_set_widget(p: PageModel, i: int, w: WidgetModel) -> PageModel {
    PageModel { widgets: p.widgets.update(i, w), ..p }
}

/// One warning entry about an unsupported operation.
pub open spec fn spec_warn(p: PageModel, message: Seq<char>) -> PageModel {
    spec_add_log(p, LogLevel::Warning, message)
}

impl Page {
    /// The style name of a primitive; empty for a stale handle.
    pub fn element_name(&self, i: usize) -> (r: String)
        ensures
            r@ == if i < self@.widgets.len() {
                self@.widgets[i as int].tag
            } else {
                Seq::<char>::empty()
            },
    {
        if i < self.widgets.len() {
            self.widgets[i].tag.clone()
        } else {
            String::new()
        }
    }

    /// Reads a primitive's textual content: its text when the primitive
    /// supports content, else a warning and the empty string.
    pub fn get_content(&mut self, i: usize) -> (r: String)
        ensures
            ({
                let p = old(self)@;
                if i < p.widgets.len() && spec_supports_content(p.widgets[i as int].kind) {
                    final(self)@ == p && r@ == p.widgets[i as int].text
                } else {
                    final(self)@ == spec_warn(
                        p,
                        "This component does not support the get_content method"@,
                    ) && r@ == Seq::<char>::empty()
                }
            }),
    {
        if i < self.widgets.len() && supports_content(&self.widgets[i].kind) {
            self.widgets[i].text.clone()
        } else {
            self.log_message(
                LogLevel::Warning,
                String::from_str("This component does not support the get_content method"),
            );
            String::new()
        }
    }

    /// Writes a primitive's textual content, when it supports content; else
    /// a warning and nothing happens.
    pub fn set_content(&mut self, i: usize, text: String)
        ensures
            ({
                let p = old(self)@;
                if i < p.widgets.len() && spec_supports_content(p.widgets[i as int].kind) {
                    final(self)@ == spec_set_widget(
                        p,
                        i as int,
                        (WidgetModel { text: text@, ..p.widgets[i as int] }),
                    )
                } else {
                    final(self)@ == spec_warn(
                        p,
                        "This component does not support the set_content method"@,
                    )
                }
            }),
    {
        if i < self.widgets.len() && supports_content(&self.widgets[i].kind) {
            let mut w = self.widgets.remove(i);
            let ghost before = self@;
            w.text = text;
            self.widgets.insert(i, w);
            proof {
                assert(self@.widgets.len() == old(self)@.widgets.len());
                assert(forall|t: int|
                    0 <= t < old(self)@.widgets.len() && t != i ==> self@.widgets[t] == old(
                        self,
                    )@.widgets[t]);
                assert(self@.widgets[i as int] =~= (WidgetModel {
                    text: text@,
                    ..old(self)@.widgets[i as int]
                }));
                assert(self@.widgets =~= old(self)@.widgets.update(
                    i as int,
                    (WidgetModel { text: text@, ..old(self)@.widgets[i as int] }),
                ));
                assert(self@.records =~= old(self)@.records);
                assert(self@.log =~= old(self)@.log);
                assert(self@ =~= spec_set_widget(
                    old(self)@,
                    i as int,
                    (WidgetModel { text: text@, ..old(self)@.widgets[i as int] }),
                ));
            }
        } else {
            self.log_message(
                LogLevel::Warning,
                String::from_str("This component does not support the set_content method"),
            );
        }
    }

    /// Reads a link's target; a warning and the empty string elsewhere.
    pub fn get_href(&mut self, i: usize) -> (r: String)
        ensures
            ({
                let p = old(self)@;
                if i < p.widgets.len() && spec_supports_href(p.widgets[i as int].kind) {
                    final(self)@ == p && r@ == p.widgets[i as int].href
                } else {
                    final(self)@ == spec_warn(
                        p,
                        "This component does not support the get_href method"@,
                    ) && r@ == Seq::<char>::empty()
                }
            }),
    {
        if i < self.widgets.len() && matches!(&self.widgets[i].kind, WidgetKind::Link) {
            self.widgets[i].href.clone()
        } else {
            self.log_message(
                LogLevel::Warning,
                String::from_str("This component does not support the get_href method"),
            );
            String::new()
        }
    }

    /// Writes a link's target; a warning elsewhere.
    pub fn set_href(&mut self, i: usize, href: String)
        ensures
            ({
                let p = old(self)@;
                if i < p.widgets.len() && spec_supports_href(p.widgets[i as int].kind) {
                    final(self)@ == spec_set_widget(
                        p,
                        i as int,
                        (WidgetModel { href: href@, ..p.widgets[i as int] }),
                    )
                } else {
                    final(self)@ == spec_warn(
                        p,
                        "This component does not support the set_href method"@,
                    )
                }
            }),
    {
        if i < self.widgets.len() && matches!(&self.widgets[i].kind, WidgetKind::Link) {
            let mut w = self.widgets.remove(i);
            w.href = href;
            self.widgets.insert(i, w);
            proof {
                assert(self@.widgets =~= old(self)@.widgets.update(
                    i as int,
                    (WidgetModel { href: href@, ..old(self)@.widgets[i as int] }),
                ));
                assert(self@ =~= spec_set_widget(
                    old(self)@,
                    i as int,
                    (WidgetModel { href: href@, ..old(self)@.widgets[i as int] }),
                ));
            }
        } else {
            self.log_message(
                LogLevel::Warning,
                String::from_str("This component does not support the set_href method"),
            );
        }
    }

    /// Reads a primitive's opacity in thousandths; fully opaque for a stale
    /// handle, with a warning.
    pub fn get_opacity(&mut self, i: usize) -> (r: u32)
        ensures
            ({
                let p = old(self)@;
                if i < p.widgets.len() {
                    final(self)@ == p && r as int == p.widgets[i as int].opacity
                } else {
                    final(self)@ == spec_warn(p, "No such element"@) && r == 1000u32
                }
            }),
    {
        if i < self.widgets.len() {
            self.widgets[i].opacity
        } else {
            self.log_message(LogLevel::Warning, String::from_str("No such element"));
            1000
        }
    }

    /// Writes a primitive's opacity in thousandths.
    pub fn set_opacity(&mut self, i: usize, amount: u32)
        ensures
            ({
                let p = old(self)@;
                if i < p.widgets.len() {
                    final(self)@ == spec_set_widget(
                        p,
                        i as int,
                        (WidgetModel { opacity: amount as int, ..p.widgets[i as int] }),
                    )
                } else {
                    final(self)@ == spec_warn(p, "No such element"@)
                }
            }),
    {
        if i < self.widgets.len() {
            let mut w = self.widgets.remove(i);
            w.opacity = amount;
            self.widgets.insert(i, w);
            proof {
                assert(self@.widgets =~= old(self)@.widgets.update(
                    i as int,
                    (WidgetModel { opacity: amount as int, ..old(self)@.widgets[i as int] }),
                ));
                assert(self@ =~= spec_set_widget(
                    old(self)@,
                    i as int,
                    (WidgetModel { opacity: amount as int, ..old(self)@.widgets[i as int] }),
                ));
            }
        } else {
            self.log_message(LogLevel::Warning, String::from_str("No such element"));
        }
    }

    /// Shows or hides a primitive.
    pub fn set_visible(&mut self, i: usize, visible: bool)
        ensures
            ({
                let p = old(self)@;
                if i < p.widgets.len() {
                    final(self)@ == spec_set_widget(
                        p,
                        i as int,
                        (WidgetModel { visible, ..p.widgets[i as int] }),
                    )
                } else {
                    final(self)@ == spec_warn(p, "No such element"@)
                }
            }),
    {
        if i < self.widgets.len() {
            let mut w = self.widgets.remove(i);
            w.visible = visible;
            self.widgets.insert(i, w);
            proof {
                assert(self@.widgets =~= old(self)@.widgets.update(
                    i as int,
                    (WidgetModel { visible, ..old(self)@.widgets[i as int] }),
                ));
                assert(self@ =~= spec_set_widget(
                    old(self)@,
                    i as int,
                    (WidgetModel { visible, ..old(self)@.widgets[i as int] }),
                ));
            }
        } else {
            self.log_message(LogLevel::Warning, String::from_str("No such element"));
        }
    }

    /// Reads an image's or media handle's source address; a warning and the
    /// empty string elsewhere.
    pub fn get_source(&mut self, i: usize) -> (r: String)
        ensures
            ({
                let p = old(self)@;
                if i < p.widgets.len() && spec_supports_source(p.widgets[i as int].kind) {
                    final(self)@ == p && r@ == p.widgets[i as int].source
                } else {
                    final(self)@ == spec_warn(
                        p,
                        "This component does not support the get_source method"@,
                    ) && r@ == Seq::<char>::empty()
                }
            }),
    {
        if i < self.widgets.len() && (matches!(&self.widgets[i].kind, WidgetKind::Image)
            || matches!(&self.widgets[i].kind, WidgetKind::Media)) {
            self.widgets[i].source.clone()
        } else {
            self.log_message(
                LogLevel::Warning,
                String::from_str("This component does not support the get_source method"),
            );
            String::new()
        }
    }

    /// Points an image at a new source: an inline `data:` address decodes
    /// at once (a malformed payload is logged and yields the empty image),
    /// anything else is left to the fetch layer.  A media handle takes the
    /// address as given.  A warning elsewhere.
    pub fn set_source(&mut self, i: usize, source: String)
        ensures
            ({
                let p = old(self)@;
                if i < p.widgets.len() && p.widgets[i as int].kind is Image {
                    let (data, malformed) = spec_image_data(source@);
                    let w = match data {
                        ImageDataModel::Inline(bytes) => WidgetModel {
                            source: source@,
                            image: bytes,
                            pending_fetch: false,
                            ..p.widgets[i as int]
                        },
                        ImageDataModel::Fetched(u) => WidgetModel {
                            source: u,
                            image: Seq::empty(),
                            pending_fetch: true,
                            ..p.widgets[i as int]
                        },
                    };
                    let p1 = spec_set_widget(p, i as int, w);
                    final(self)@ == if malformed {
                        spec_add_log(p1, LogLevel::Error, "Failed to decode image data"@)
                    } else {
                        p1
                    }
                } else if i < p.widgets.len() && p.widgets[i as int].kind is Media {
                    final(self)@ == spec_set_widget(
                        p,
                        i as int,
                        (WidgetModel { source: source@, ..p.widgets[i as int] }),
                    )
                } else {
                    final(self)@ == spec_warn(
                        p,
                        "This component does not support the set_source method"@,
                    )
                }
            }),
    {
        if i < self.widgets.len() && matches!(&self.widgets[i].kind, WidgetKind::Image) {
            let ghost srcv = source@;
            let ghost dm = spec_image_data(source@);
            let (data, malformed) = resolve_image_data(source.as_str());
            let mut w = self.widgets.remove(i);
            let ghost w0 = w@;
            match data {
                ImageData::Inline(bytes) => {
                    w.source = source;
                    w.image = bytes;
                    w.pending_fetch = false;
                },
                ImageData::Fetched(u) => {
                    w.source = u;
                    w.image = Vec::new();
                    w.pending_fetch = true;
                },
            }
            proof {
                match dm.0 {
                    ImageDataModel::Inline(bytes) => {
                        assert(w@ =~= (WidgetModel {
                            source: srcv,
                            image: bytes,
                            pending_fetch: false,
                            ..w0
                        }));
                    },
                    ImageDataModel::Fetched(u) => {
                        assert(w@.image =~= Seq::<u8>::empty());
                        assert(w@ =~= (WidgetModel {
                            source: u,
                            image: Seq::empty(),
                            pending_fetch: true,
                            ..w0
                        }));
                    },
                }
            }
            self.widgets.insert(i, w);
            proof {
                assert(self@.widgets =~= old(self)@.widgets.update(i as int, w@));
                assert(self@ =~= spec_set_widget(old(self)@, i as int, w@));
            }
            if malformed {
                self.log_message(
                    LogLevel::Error,
                    String::from_str("Failed to decode image data"),
                );
            }
        } else if i < self.widgets.len() && matches!(&self.widgets[i].kind, WidgetKind::Media) {
            let mut w = self.widgets.remove(i);
            w.source = source;
            self.widgets.insert(i, w);
            proof {
                assert(self@.widgets =~= old(self)@.widgets.update(
                    i as int,
                    (WidgetModel { source: w@.source, ..old(self)@.widgets[i as int] }),
                ));
                assert(self@ =~= spec_set_widget(
                    old(self)@,
                    i as int,
                    (WidgetModel { source: w@.source, ..old(self)@.widgets[i as int] }),
                ));
            }
        } else {
            self.log_message(
                LogLevel::Warning,
                String::from_str("This component does not support the set_source method"),
            );
        }
    }

    /// Registers a script handler for an event the primitive answers; a
    /// warning otherwise.  Handlers fire in registration order.
    pub fn register_handler(&mut self, i: usize, ev: Event, handler: u64)
        ensures
            ({
                let p = old(self)@;
                if i < p.widgets.len() && spec_supports_event(p.widgets[i as int].kind, ev) {
                    final(self)@ == spec_set_widget(
                        p,
                        i as int,
                        (WidgetModel {
                            handlers: p.widgets[i as int].handlers.push((ev, handler)),
                            ..p.widgets[i as int]
                        }),
                    )
                } else {
                    final(self)@ == spec_warn(
                        p,
                        "This component does not support that event"@,
                    )
                }
            }),
    {
        let supported = if i < self.widgets.len() {
            match ev {
                Event::Click => true,
                Event::Submit => matches!(&self.widgets[i].kind, WidgetKind::TextInput),
                Event::Input => matches!(&self.widgets[i].kind, WidgetKind::TextInput)
                    || matches!(&self.widgets[i].kind, WidgetKind::TextArea),
            }
        } else {
            false
        };
        if supported {
            let mut w = self.widgets.remove(i);
            let ghost w0 = w@;
            w.handlers.push((ev, handler));
            proof {
                assert(w@ =~= (WidgetModel { handlers: w0.handlers.push((ev, handler)), ..w0 }));
            }
            self.widgets.insert(i, w);
            proof {
                assert(self@.widgets =~= old(self)@.widgets.update(i as int, w@));
                assert(self@ =~= spec_set_widget(old(self)@, i as int, w@));
            }
        } else {
            self.log_message(
                LogLevel::Warning,
                String::from_str("This component does not support that event"),
            );
        }
    }

    /// The handlers to fire for one event on one primitive, in registration
    /// order.
    pub fn activate(&self, i: usize, ev: Event) -> (r: Vec<u64>)
        ensures
            i < self@.widgets.len() ==> r@ == spec_handlers_for(
                self@.widgets[i as int].handlers,
                ev,
            ),
            i >= self@.widgets.len() ==> r@ == Seq::<u64>::empty(),
    {
        let mut r: Vec<u64> = Vec::new();
        if i >= self.widgets.len() {
            proof {
                assert(r@ =~= Seq::<u64>::empty());
            }
            return r;
        }
        let handlers = &self.widgets[i].handlers;
        let ghost hs = handlers@;
        let mut k: usize = 0;
        proof {
            assert(hs.skip(0) =~= hs);
            assert(spec_handlers_for(hs, ev) =~= r@ + spec_handlers_for(hs.skip(0), ev));
        }
        while k < handlers.len()
            invariant
                k <= handlers.len(),
                hs == handlers@,
                spec_handlers_for(hs, ev) =~= r@ + spec_handlers_for(hs.skip(k as int), ev),
            decreases handlers.len() - k,
        {
            proof {
                assert(hs.skip(k as int)[0] == hs[k as int]);
                assert(hs.skip(k as int).skip(1) =~= hs.skip(k as int + 1));
            }
            let (hev, hid) = &handlers[k];
            if event_eq(hev, &ev) {
                let ghost r0 = r@;
                r.push(*hid);
                proof {
                    assert(r@ =~= r0.push(*hid));
                    assert(r@ + spec_handlers_for(hs.skip(k as int + 1), ev) =~= r0
                        + spec_handlers_for(hs.skip(k as int), ev));
                }
            }
            k = k + 1;
        }
        proof {
            assert(hs.skip(handlers.len() as int) =~= Seq::<(Event, u64)>::empty());
            assert(r@ =~= spec_handlers_for(hs, ev));
        }
        r
    }

    /// Appends freshly parsed markup as a new subtree of a container,
    /// re-entering the render tree builder; the new records merge into the
    /// registry.  A warning on anything but a container.
    pub fn append_html(
        &mut self,
        i: usize,
        children: &Vec<NodeChild>,
        store: &RuleStore,
    )
        ensures
            ({
                let p = old(self)@;
                if i < p.widgets.len() && spec_supports_children(p.widgets[i as int].kind) {
                    final(self)@ == spec_render_elem_children(p, store@, i as int, children@)
                } else {
                    final(self)@ == spec_warn(
                        p,
                        "This component does not support child markup"@,
                    )
                }
            }),
    {
        if i < self.widgets.len() && (matches!(&self.widgets[i].kind, WidgetKind::Container)
            || matches!(&self.widgets[i].kind, WidgetKind::List)) {
            crate::render::render_elem_children(self, store, i, children);
        } else {
            self.log_message(
                LogLevel::Warning,
                String::from_str("This component does not support child markup"),
            );
        }
    }

    /// Replaces a container's subtree with freshly parsed markup: the
    /// container's children are detached, then the new markup renders under
    /// it.  A warning on anything but a container.
    pub fn set_inner_html(
        &mut self,
        i: usize,
        children: &Vec<NodeChild>,
        store: &RuleStore,
    )
        ensures
            ({
                let p = old(self)@;
                if i < p.widgets.len() && spec_supports_children(p.widgets[i as int].kind) {
                    final(self)@ == spec_render_elem_children(
                        spec_detach_children(p, i as int),
                        store@,
                        i as int,
                        children@,
                    )
                } else {
                    final(self)@ == spec_warn(
                        p,
                        "This component does not support child markup"@,
                    )
                }
            }),
    {
        if i < self.widgets.len() && (matches!(&self.widgets[i].kind, WidgetKind::Container)
            || matches!(&self.widgets[i].kind, WidgetKind::List)) {
            let ghost p0 = self@;
            let mut j: usize = 0;
            while j < self.widgets.len()
                invariant
                    j <= self@.widgets.len(),
                    self@.widgets.len() == p0.widgets.len(),
                    self@.records == p0.records,
                    self@.log == p0.log,
                    forall|t: int|
                        0 <= t < j ==> self@.widgets[t] == spec_detach_one(
                            p0.widgets[t],
                            i as int,
                        ),
                    forall|t: int|
                        j <= t < p0.widgets.len() ==> self@.widgets[t] == p0.widgets[t],
                decreases self@.widgets.len() - j,
            {
                let ghost entry = self@.widgets;
                let detach = match self.widgets[j].parent {
                    Some(par) => par == i,
                    None => false,
                };
                if detach {
                    let mut w = self.widgets.remove(j);
                    w.detached = true;
                    self.widgets.insert(j, w);
                    proof {
                        assert(self@.widgets.len() == entry.len());
                        assert(forall|t: int|
                            0 <= t < entry.len() && t != j ==> self@.widgets[t] == entry[t]);
                        assert(self@.widgets[j as int] =~= spec_detach_one(
                            p0.widgets[j as int],
                            i as int,
                        ));
                    }
                } else {
                    proof {
                        assert(self@.widgets[j as int] == spec_detach_one(
                            p0.widgets[j as int],
                            i as int,
                        ));
                    }
                }
                j = j + 1;
            }
            proof {
                assert(self@.widgets =~= spec_detach_children(p0, i as int).widgets);
                assert(self@ =~= spec_detach_children(p0, i as int));
            }
            crate::render::render_elem_children(self, store, i, children);
        } else {
            self.log_message(
                LogLevel::Warning,
                String::from_str("This component does not support child markup"),
            );
        }
    }

    /// Routes one `print` of the page's script to the diagnostics log.
    pub fn script_print(&mut self, message: String)
        ensures
            final(self)@ == spec_add_log(old(self)@, LogLevel::Script, message@),
    {
        let ghost before = self@;
        self.log_message(LogLevel::Script, message);
        proof {
            assert(self@ =~= spec_add_log(before, LogLevel::Script, message@));
        }
    }
}

/// A widget after a subtree replacement on container `i`: direct children
/// of `i` are detached, which hides their whole subtrees.
pub open spec fn spec_detach_one(w: WidgetModel, i: int) -> WidgetModel {
    if w.parent == Some(i) {
        WidgetModel { detached: true, ..w }
    } else {
        w
    }
}

/// The page with container `i`'s children detached.
pub open spec fn spec_detach_children(p: PageModel, i: int) -> PageModel {
    PageModel {
        widgets: Seq::new(p.widgets.len(), |j: int| spec_detach_one(p.widgets[j], i)),
        ..p
    }
}

/// The handlers registered for one event, in registration order.
pub open spec fn spec_handlers_for(hs: Seq<(Event, u64)>, ev: Event) -> Seq<u64>
    decreases hs.len(),
{
    if hs.len() == 0 {
        Seq::empty()
    } else {
        (if hs[0].0 == ev {
            seq![hs[0].1]
        } else {
            Seq::empty()
        }) + spec_handlers_for(hs.skip(1), ev)
    }
}

fn event_eq(a: &Event, b: &Event) -> (r: bool)
    ensures
        r == (*a == *b),
{
    match (a, b) {
        (Event::Click, Event::Click) => true,
        (Event::Submit, Event::Submit) => true,
        (Event::Input, Event::Input) => true,
        _ => false,
    }
}

/// What one `set_timeout` call decides.
#[derive(Debug, PartialEq, Eq)]
pub enum TimeoutOutcome {
    /// A zero delay: the caller must invoke the function now, before
    /// `set_timeout` returns control to the script.
    RunNow,
    /// Scheduled on the host loop under this render-pass-scoped id.
    Scheduled(u64),
}

/// Mathematical model of a [`TimerSet`].
#[verifier::ext_equal]
pub struct TimerSetModel {
    pub next_id: int,
    pub active: Seq<u64>,
}

/// The render pass's set of outstanding timers.  It must be fully drained —
/// every scheduled source destroyed — before the next navigation begins.
pub struct TimerSet {
    next_id: u64,
    active: Vec<u64>,
}

impl View for TimerSet {
    type V = TimerSetModel;

    closed spec fn view(&self) -> TimerSetModel {
        TimerSetModel { next_id: self.next_id as int, active: self.active@ }
    }
}

/// The active timers after one id is cleared: the first occurrence removed.
pub open spec fn spec_clear_id(active: Seq<u64>, id: u64) -> Seq<u64>
    decreases active.len(),
{
    if active.len() == 0 {
        Seq::empty()
    } else if active[0] == id {
        active.skip(1)
    } else {
        seq![active[0]] + spec_clear_id(active.skip(1), id)
    }
}

impl TimerSet {
    /// A fresh, empty timer set for one render pass.
    pub fn new() -> (r: TimerSet)
        ensures
            r@.active =~= Seq::<u64>::empty(),
            r@.next_id == 1,
    {
        let r = TimerSet { next_id: 1, active: Vec::new() };
        proof {
            assert(r@.active =~= Seq::<u64>::empty());
        }
        r
    }

    /// Decides one `set_timeout(f, ms)` call.  A zero delay runs `f` at
    /// once: the caller invokes it before returning control, so its side
    /// effects are observable first, and no timer is recorded.  A positive
    /// delay allocates the next id, records it, and leaves scheduling to
    /// the host loop.
    pub fn set_timeout(&mut self, ms: u64) -> (r: TimeoutOutcome)
        requires
            old(self)@.next_id < u64::MAX,
        ensures
            ms == 0 ==> r is RunNow && final(self)@ == old(self)@,
            ms > 0 ==> {
                &&& r == TimeoutOutcome::Scheduled(old(self).spec_next())
                &&& final(self)@.active == old(self)@.active.push(old(self).spec_next())
                &&& final(self)@.next_id == old(self)@.next_id + 1
            },
    {
        if ms == 0 {
            TimeoutOutcome::RunNow
        } else {
            let id = self.next_id;
            self.next_id = self.next_id + 1;
            self.active.push(id);
            TimeoutOutcome::Scheduled(id)
        }
    }

    /// The id the next scheduled timeout will get.
    pub closed spec fn spec_next(&self) -> u64 {
        self.next_id
    }

    /// Destroys one pending timeout: the first record of the id leaves the
    /// set; clearing an id that is not pending does nothing.  Returns
    /// whether the id was pending.
    pub fn clear_timeout(&mut self, id: u64) -> (was_pending: bool)
        ensures
            final(self)@.active == spec_clear_id(old(self)@.active, id),
            final(self)@.next_id == old(self)@.next_id,
            was_pending == old(self)@.active.contains(id),
    {
        let ghost a0 = self.active@;
        let mut i: usize = 0;
        proof {
            assert(a0.skip(0) =~= a0);
            assert(a0.take(0) =~= Seq::<u64>::empty());
        }
        while i < self.active.len()
            invariant
                i <= self.active.len(),
                self.active@ == a0,
                a0 == old(self)@.active,
                self@.next_id == old(self)@.next_id,
                forall|t: int| 0 <= t < i ==> a0[t] != id,
                spec_clear_id(a0, id) == a0.take(i as int) + spec_clear_id(
                    a0.skip(i as int),
                    id,
                ),
            decreases self.active.len() - i,
        {
            proof {
                assert(a0.skip(i as int)[0] == a0[i as int]);
                assert(a0.skip(i as int).skip(1) =~= a0.skip(i as int + 1));
            }
            if self.active[i] == id {
                self.active.remove(i);
                proof {
                    assert(self.active@ =~= a0.take(i as int) + a0.skip(i as int + 1));
                    assert(spec_clear_id(a0.skip(i as int), id) == a0.skip(i as int).skip(1));
                    assert(self.active@ =~= spec_clear_id(a0, id));
                    assert(a0[i as int] == id);
                    assert(a0.contains(id));
                }
                return true;
            }
            proof {
                assert(a0.take(i as int + 1) =~= a0.take(i as int) + seq![a0[i as int]]);
                assert(a0.take(i as int) + spec_clear_id(a0.skip(i as int), id) =~= a0.take(
                    i as int,
                ) + (seq![a0[i as int]] + spec_clear_id(a0.skip(i as int + 1), id)));
                assert(a0.take(i as int) + seq![a0[i as int]] + spec_clear_id(
                    a0.skip(i as int + 1),
                    id,
                ) =~= a0.take(i as int + 1) + spec_clear_id(a0.skip(i as int + 1), id));
            }
            i = i + 1;
        }
        proof {
            assert(a0.skip(self.active.len() as int) =~= Seq::<u64>::empty());
            assert(a0.take(self.active.len() as int) =~= a0);
            assert(self.active@ =~= spec_clear_id(a0, id));
            assert(forall|t: int| 0 <= t < a0.len() ==> a0[t] != id);
            assert(!a0.contains(id));
        }
        false
    }

    /// Tears the timer set down at the end of the render pass: every
    /// outstanding id leaves the set and is handed back so that the caller
    /// can destroy each scheduled source.
    pub fn drain(&mut self) -> (r: Vec<u64>)
        ensures
            r@ == old(self)@.active,
            final(self)@.active =~= Seq::<u64>::empty(),
            final(self)@.next_id == old(self)@.next_id,
    {
        let mut drained: Vec<u64> = Vec::new();
        core::mem::swap(&mut drained, &mut self.active);
        proof {
            assert(self@.active =~= Seq::<u64>::empty());
        }
        drained
    }
}

/// The parsed query parameters of an address: the `key=value` pairs after
/// the first `?`, split on `&`; a pair without exactly one `=` is dropped.
pub open spec fn spec_query_pairs(u: Seq<char>) -> Seq<(Seq<char>, Seq<char>)> {
    let q = spec_index_of(u, '?');
    if q < 0 {
        Seq::empty()
    } else {
        spec_pairs_of(spec_split(u.skip(q + 1), '&'))
    }
}

/// The well-formed `key=value` pairs of a parameter list.
pub open spec fn spec_pairs_of(ps: Seq<Seq<char>>) -> Seq<(Seq<char>, Seq<char>)>
    decreases ps.len(),
{
    if ps.len() == 0 {
        Seq::empty()
    } else {
        let kv = spec_split(ps[0], '=');
        (if kv.len() == 2 {
            seq![(kv[0], kv[1])]
        } else {
            Seq::<(Seq<char>, Seq<char>)>::empty()
        }) + spec_pairs_of(ps.skip(1))
    }
}

/// Parses the query parameters the navigation context exposes to scripts.
pub fn parse_query(url: &str) -> (r: Vec<(String, String)>)
    ensures
        r.deep_view() == spec_query_pairs(url@),
{
    let mut r: Vec<(String, String)> = Vec::new();
    let q = match crate::resource::index_of(url, '?') {
        None => {
            proof {
                assert(r.deep_view() =~= spec_query_pairs(url@));
            }
            return r;
        },
        Some(q) => q,
    };
    proof {
        crate::resource::lemma_index_of_in_range(url@, '?');
    }
    let len = url.unicode_len();
    let params = url.substring_char(q + 1, len);
    proof {
        assert(params@ == url@.skip(q as int + 1));
    }
    let parts = split_char(params, '&');
    let ghost ps = parts.deep_view();
    let mut i: usize = 0;
    proof {
        assert(ps.skip(0) =~= ps);
        assert(r.deep_view() =~= Seq::<(Seq<char>, Seq<char>)>::empty());
    }
    while i < parts.len()
        invariant
            i <= parts.len(),
            ps == parts.deep_view(),
            ps.len() == parts.len(),
            spec_pairs_of(ps) =~= r.deep_view() + spec_pairs_of(ps.skip(i as int)),
        decreases parts.len() - i,
    {
        proof {
            assert(ps.skip(i as int)[0] == ps[i as int]);
            assert(ps.skip(i as int).skip(1) =~= ps.skip(i as int + 1));
            assert(ps[i as int] == parts@[i as int]@);
        }
        let kv = split_char(parts[i].as_str(), '=');
        if kv.len() == 2 {
            proof {
                assert(kv.deep_view()[0] == kv@[0]@);
                assert(kv.deep_view()[1] == kv@[1]@);
            }
            let pair = (kv[0].clone(), kv[1].clone());
            let ghost r0 = r.deep_view();
            proof {
                assert(r@.len() == r0.len());
            }
            r.push(pair);
            proof {
                assert(r.deep_view().len() == r0.len() + 1);
                assert(forall|t: int| 0 <= t < r0.len() ==> r.deep_view()[t] == r0[t]);
                assert(r.deep_view()[r0.len() as int] == (kv.deep_view()[0], kv.deep_view()[1]));
                assert(r.deep_view() =~= r0.push((kv.deep_view()[0], kv.deep_view()[1])));
                assert(r.deep_view() + spec_pairs_of(ps.skip(i as int + 1)) =~= r0
                    + spec_pairs_of(ps.skip(i as int)));
            }
        }
        i = i + 1;
    }
    proof {
        assert(ps.skip(parts.len() as int) =~= Seq::<Seq<char>>::empty());
        assert(r.deep_view() =~= spec_pairs_of(ps));
    }
    r
}

/// What activating a link does.
#[derive(Debug, PartialEq, Eq)]
pub enum LinkAction {
    /// Follow the link natively.
    Native,
    /// Navigate inside the client to this stripped address.
    Internal(String),
}

/// Mathematical model of a [`LinkAction`].
#[verifier::ext_equal]
pub enum LinkActionModel {
    Native,
    Internal(Seq<char>),
}

impl View for LinkAction {
    type V = LinkActionModel;

    open spec fn view(&self) -> LinkActionModel {
        match self {
            LinkAction::Native => LinkActionModel::Native,
            LinkAction::Internal(u) => LinkActionModel::Internal(u@),
        }
    }
}

/// How activating a link routes: an address under the client's internal
/// scheme prefix navigates inside the client, anything else proceeds
/// natively.
pub open spec fn spec_link_activation(u: Seq<char>) -> LinkActionModel {
    if spec_starts_with(u, "buss://"@) {
        LinkActionModel::Internal(u.skip("buss://"@.len() as int))
    } else {
        LinkActionModel::Native
    }
}

/// Decides what activating a link does.
pub fn link_activation(uri: &str) -> (r: LinkAction)
    ensures
        r@ == spec_link_activation(uri@),
{
    if starts_with(uri, "buss://") {
        let plen = "buss://".unicode_len();
        let rest = uri.substring_char(plen, uri.unicode_len());
        proof {
            assert(rest@ == uri@.skip("buss://"@.len() as int));
        }
        LinkAction::Internal(rest.to_owned())
    } else {
        LinkAction::Native
    }
}

/// The request methods the `fetch` primitive supports.
#[derive(Debug, PartialEq, Eq)]
pub enum FetchMethod {
    Get,
    Post,
    Put,
    Delete,
}

/// A planned request: what the fetch layer is to perform.
#[derive(Debug, PartialEq, Eq)]
pub struct FetchPlan {
    pub method: FetchMethod,
    pub url: String,
    pub body: String,
}

/// Why a `fetch` call is refused before anything is sent.
#[derive(Debug, PartialEq, Eq)]
pub enum FetchPlanError {
    MissingUrl,
    MissingMethod,
    MissingHeaders,
    /// The method named is none of the supported four; carries its name.
    UnsupportedMethod(String),
}

/// Plans one `fetch` call from the fields the script supplied.  The address,
/// method and header table are required, in that order of complaint; the
/// body defaults to an empty object; only GET, POST, PUT and DELETE are
/// performed.
pub fn plan_fetch(
    url: Option<String>,
    method: Option<String>,
    headers_given: bool,
    body: Option<String>,
) -> (r: Result<FetchPlan, FetchPlanError>)
    ensures
        ({
            match r {
                Ok(plan) => {
                    &&& url is Some && method is Some && headers_given
                    &&& plan.url@ == url->0@
                    &&& plan.body@ == (match body {
                        Some(b) => b@,
                        None => "{}"@,
                    })
                    &&& (match plan.method {
                        FetchMethod::Get => method->0@ == "GET"@,
                        FetchMethod::Post => method->0@ == "POST"@,
                        FetchMethod::Put => method->0@ == "PUT"@,
                        FetchMethod::Delete => method->0@ == "DELETE"@,
                    })
                },
                Err(e) => match e {
                    FetchPlanError::MissingUrl => url is None,
                    FetchPlanError::MissingMethod => url is Some && method is None,
                    FetchPlanError::MissingHeaders => url is Some && method is Some
                        && !headers_given,
                    FetchPlanError::UnsupportedMethod(m) => {
                        &&& url is Some && method is Some && headers_given
                        &&& m@ == method->0@
                        &&& m@ != "GET"@ && m@ != "POST"@ && m@ != "PUT"@ && m@ != "DELETE"@
                    },
                },
            }
        }),
{
    let url = match url {
        None => {
            return Err(FetchPlanError::MissingUrl);
        },
        Some(u) => u,
    };
    let method = match method {
        None => {
            return Err(FetchPlanError::MissingMethod);
        },
        Some(m) => m,
    };
    if !headers_given {
        return Err(FetchPlanError::MissingHeaders);
    }
    let body = match body {
        None => String::from_str("{}"),
        Some(b) => b,
    };
    let m = if str_eq(method.as_str(), "GET") {
        FetchMethod::Get
    } else if str_eq(method.as_str(), "POST") {
        FetchMethod::Post
    } else if str_eq(method.as_str(), "PUT") {
        FetchMethod::Put
    } else if str_eq(method.as_str(), "DELETE") {
        FetchMethod::Delete
    } else {
        return Err(FetchPlanError::UnsupportedMethod(method));
    };
    Ok(FetchPlan { method: m, url, body })
}

/// The directory part of an address: everything up to the last `/`, or the
/// address itself when it has none.
pub open spec fn spec_dir_of(u: Seq<char>) -> Seq<char> {
    if u.contains('/') {
        u.take(spec_last_index_of(u, '/'))
    } else {
        u
    }
}

/// The index of the last occurrence of `c`; meaningful only when present.
pub open spec fn spec_last_index_of(s: Seq<char>, c: char) -> int
    decreases s.len(),
{
    if s.len() == 0 {
        -1
    } else if s[s.len() - 1] == c {
        s.len() - 1
    } else {
        spec_last_index_of(s.take(s.len() - 1), c)
    }
}

/// Where the module loader's target leads: an absolute address routes on
/// its own (the repository shorthand rewritten, a local path read from
/// disk); anything else resolves relative to the directory of the
/// currently-executing script's own address.
pub open spec fn spec_resolve_module(current: Seq<char>, target: Seq<char>) -> (
    crate::resource::RouteModel
) {
    if spec_starts_with(target, "http://"@) || spec_starts_with(target, "https://"@)
        || spec_starts_with(target, "file://"@) {
        spec_classify(target)
    } else {
        spec_classify(spec_dir_of(current) + "/"@ + target)
    }
}

/// Resolves a module loader target against the running script's address.
pub fn resolve_module(current: &str, target: &str) -> (r: Route)
    ensures
        r@ == spec_resolve_module(current@, target@),
{
    if starts_with(target, "http://") || starts_with(target, "https://") || starts_with(
        target,
        "file://",
    ) {
        classify_resource(target)
    } else {
        let dir = dir_of(current);
        let joined = crate::resource::join_url(dir, target);
        classify_resource(joined.as_str())
    }
}

/// The directory part of an address.
fn dir_of(u: &str) -> (r: &str)
    ensures
        r@ == spec_dir_of(u@),
{
    let len = u.unicode_len();
    let mut i: usize = len;
    proof {
        assert(u@.take(len as int) =~= u@);
        lemma_last_index_take(u@, '/', len as int);
    }
    while i > 0
        invariant
            i <= len,
            len == u@.len(),
            spec_last_index_of(u@, '/') == spec_last_index_of(u@.take(i as int), '/'),
            forall|t: int| i <= t < len ==> u@[t] != '/',
        decreases i,
    {
        proof {
            assert(u@.take(i as int)[i - 1] == u@[i - 1]);
            assert(u@.take(i as int).take(i as int - 1) =~= u@.take(i as int - 1));
        }
        if u.get_char(i - 1) == '/' {
            proof {
                assert(spec_last_index_of(u@, '/') == i - 1);
                assert(u@.contains('/'));
            }
            return u.substring_char(0, i - 1);
        }
        i = i - 1;
    }
    proof {
        assert(u@.take(0) =~= Seq::<char>::empty());
        assert(spec_last_index_of(u@, '/') == -1);
        assert(forall|t: int| 0 <= t < len ==> u@[t] != '/');
        if u@.contains('/') {
            let w = choose|w: int| 0 <= w < u@.len() && u@[w] == '/';
            assert(false);
        }
    }
    u
}

/// Restating the trivial base case: the last index in a full take.
proof fn lemma_last_index_take(s: Seq<char>, c: char, i: int)
    requires
        0 <= i <= s.len(),
    ensures
        i == s.len() ==> spec_last_index_of(s, c) == spec_last_index_of(s.take(i), c),
{
    if i == s.len() {
        assert(s.take(i) =~= s);
    }
}

} // verus!
