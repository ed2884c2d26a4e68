//! The live element tree of one render pass: an arena of UI primitives, the
//! flat element registry over it, and the render-pass diagnostics log.
//!
//! Primitives are appended in the order they are created and never removed
//! until the pass ends; a replaced subtree is only detached.  The registry
//! records, for each registered primitive, its authored class list, the
//! primitive's arena index and its tied-variable names, in creation order.

use vstd::prelude::*;

use crate::style::{PropertySet, PropertySetModel};
use crate::text::{push_char, spec_trim, trim};

verus! {

/// The closed set of primitive kinds one tag can map to.
#[derive(Clone, Copy, Debug, PartialEq, Eq)]
pub enum WidgetKind {
    /// Block grouping (`div`, the body, a list row).
    Container,
    /// A text run (headings, paragraph text, list items).
    Label,
    /// A link (`a`).
    Link,
    /// A vertical list group (`ul`, `ol`).
    List,
    /// A non-interactive divider (`hr`).
    Divider,
    /// A raster image (`img`).
    Image,
    /// An opaque media handle (`video`, `audio`).
    Media,
    /// A single-line text input (`input type="text"`).
    TextInput,
    /// A fixed choice list (`select`).
    Select,
    /// A multi-line editable area (`textarea`).
    TextArea,
    /// A clickable button (`button`).
    Button,
}

/// The events a script can register handlers for.
#[derive(Clone, Copy, Debug, PartialEq, Eq)]
pub enum Event {
    Click,
    Submit,
    Input,
}

/// One UI primitive in the arena.
#[derive(Debug, PartialEq)]
pub struct Widget {
    pub kind: WidgetKind,
    /// The tag this primitive renders, also its style name.
    pub tag: String,
    /// Authored class list, snapshot at creation.
    pub classes: Vec<String>,
    /// Textual content: label text, area content, button label.
    pub text: String,
    /// Link target of a [`WidgetKind::Link`].
    pub href: String,
    /// Image or media address.
    pub source: String,
    /// Decoded image payload of an inline `data:` image; empty otherwise.
    pub image: Vec<u8>,
    /// True while an image waits for the fetch layer to supply its bytes.
    pub pending_fetch: bool,
    /// The option texts of a [`WidgetKind::Select`].
    pub options: Vec<String>,
    /// Placeholder of a [`WidgetKind::TextInput`].
    pub placeholder: String,
    pub visible: bool,
    /// Opacity in thousandths.
    pub opacity: u32,
    /// Resolved styling.
    pub props: PropertySet,
    /// Arena index of the enclosing container, if any.
    pub parent: Option<usize>,
    /// True once a scripted subtree replacement removed this primitive.
    pub detached: bool,
    /// Registered script handlers, in registration order.
    pub handlers: Vec<(Event, u64)>,
}

/// Mathematical model of a [`Widget`].
#[verifier::ext_equal]
pub struct WidgetModel {
    pub kind: WidgetKind,
    pub tag: Seq<char>,
    pub classes: Seq<Seq<char>>,
    pub text: Seq<char>,
    pub href: Seq<char>,
    pub source: Seq<char>,
    pub image: Seq<u8>,
    pub pending_fetch: bool,
    pub options: Seq<Seq<char>>,
    pub placeholder: Seq<char>,
    pub visible: bool,
    pub opacity: int,
    pub props: PropertySetModel,
    pub parent: Option<int>,
    pub detached: bool,
    pub handlers: Seq<(Event, u64)>,
}

impl View for Widget {
    type V = WidgetModel;

    open spec fn view(&self) -> WidgetModel {
        WidgetModel {
            kind: self.kind,
            tag: self.tag@,
            classes: self.classes.deep_view(),
            text: self.text@,
            href: self.href@,
            source: self.source@,
            image: self.image@,
            pending_fetch: self.pending_fetch,
            options: self.options.deep_view(),
            placeholder: self.placeholder@,
            visible: self.visible,
            opacity: self.opacity as int,
            props: self.props@,
            parent: match self.parent {
                None => None,
                Some(p) => Some(p as int),
            },
            detached: self.detached,
            handlers: self.handlers@,
        }
    }
}

impl DeepView for Widget {
    type V = WidgetModel;

    open spec fn deep_view(&self) -> WidgetModel {
        self@
    }
}

/// One registry entry: class list, primitive handle, tied-variable names.
#[derive(Debug, PartialEq)]
pub struct ElementRecord {
    pub classes: Vec<String>,
    pub handle: usize,
    pub tied_variables: Vec<String>,
}

/// Mathematical model of an [`ElementRecord`].
#[verifier::ext_equal]
pub struct RecordModel {
    pub classes: Seq<Seq<char>>,
    pub handle: int,
    pub tied_variables: Seq<Seq<char>>,
}

impl View for ElementRecord {
    type V = RecordModel;

    open spec fn view(&self) -> RecordModel {
        RecordModel {
            classes: self.classes.deep_view(),
            handle: self.handle as int,
            tied_variables: self.tied_variables.deep_view(),
        }
    }
}

impl DeepView for ElementRecord {
    type V = RecordModel;

    open spec fn deep_view(&self) -> RecordModel {
        self@
    }
}

/// Severity of a diagnostics entry.
#[derive(Clone, Copy, Debug, PartialEq, Eq)]
pub enum LogLevel {
    Info,
    Warning,
    Error,
    Script,
}

/// One entry of the render pass's diagnostics log.
#[derive(Debug, PartialEq)]
pub struct LogEntry {
    pub level: LogLevel,
    pub message: String,
}

/// Mathematical model of a [`LogEntry`].
#[verifier::ext_equal]
pub struct LogEntryModel {
    pub level: LogLevel,
    pub message: Seq<char>,
}

impl View for LogEntry {
    type V = LogEntryModel;

    open spec fn view(&self) -> LogEntryModel {
        LogEntryModel { level: self.level, message: self.message@ }
    }
}

impl DeepView for LogEntry {
    type V = LogEntryModel;

    open spec fn deep_view(&self) -> LogEntryModel {
        self@
    }
}

/// A fresh log entry model.
pub open spec fn spec_log_entry(level: LogLevel, message: Seq<char>) -> LogEntryModel {
    LogEntryModel { level, message }
}

/// The element tree and registry of one render pass, with its log.
#[derive(Debug, PartialEq)]
pub struct Page {
    pub widgets: Vec<Widget>,
    pub records: Vec<ElementRecord>,
    pub log: Vec<LogEntry>,
}

/// Mathematical model of a [`Page`].
#[verifier::ext_equal]
pub struct PageModel {
    pub widgets: Seq<WidgetModel>,
    pub records: Seq<RecordModel>,
    pub log: Seq<LogEntryModel>,
}

impl View for Page {
    type V = PageModel;

    open spec fn view(&self) -> PageModel {
        PageModel {
            widgets: self.widgets.deep_view(),
            records: self.records.deep_view(),
            log: self.log.deep_view(),
        }
    }
}

/// True when the record's class list contains the class.
pub open spec fn spec_record_matches(r: RecordModel, class: Seq<char>) -> bool {
    r.classes.contains(class)
}

/// The registry indices whose records carry the class, in registry order.
pub open spec fn spec_matching_records(records: Seq<RecordModel>, class: Seq<char>) -> Seq<int>
    decreases records.len(),
{
    if records.len() == 0 {
        Seq::empty()
    } else {
        spec_matching_records(records.take(records.len() - 1), class) + (if spec_record_matches(
            records.last(),
            class,
        ) {
            seq![records.len() - 1]
        } else {
            Seq::empty()
        })
    }
}

/// Lookup on a class no record carries: there is no matching registry
/// index at all, so the single-result lookup owes its error while the
/// multi-result lookup owes the empty collection, not an error.
pub proof fn lemma_lookup_no_match(records: Seq<RecordModel>, class: Seq<char>)
    requires
        forall|k: int| 0 <= k < records.len() ==> !spec_record_matches(#[trigger] records[k], class),
    ensures
        spec_matching_records(records, class).len() == 0,
    decreases records.len(),
{
    if records.len() > 0 {
        let t = records.take(records.len() - 1);
        assert(forall|k: int| 0 <= k < t.len() ==> t[k] == records[k]);
        lemma_lookup_no_match(t, class);
    }
}

/// Lookup on a class some record carries: the first matching registry
/// index, in insertion order, is what the single-result lookup returns.
pub proof fn lemma_lookup_first_match(records: Seq<RecordModel>, class: Seq<char>, i: int)
    requires
        0 <= i < records.len(),
        spec_record_matches(records[i], class),
        forall|k: int| 0 <= k < i ==> !spec_record_matches(#[trigger] records[k], class),
    ensures
        spec_matching_records(records, class).len() > 0,
        spec_matching_records(records, class)[0] == i,
    decreases records.len(),
{
    let t = records.take(records.len() - 1);
    assert(forall|k: int| 0 <= k < t.len() ==> t[k] == records[k]);
    if i == records.len() - 1 {
        lemma_lookup_no_match(t, class);
    } else {
        lemma_lookup_first_match(t, class, i);
    }
}

/// The failure of a single-result lookup on a class no record carries.
#[derive(Debug)]
pub struct LookupError {
    message: String,
}

impl LookupError {
    pub fn message(&self) -> &String {
        &self.message
    }
}

/// The tied-variable names of a text: the `{ ... }` spans, trimmed, in
/// order.  A brace that never closes contributes nothing; a closing brace
/// without an opening one is ignored; a fresh `{` starts a fresh span.
pub open spec fn spec_tied_rec(
    s: Seq<char>,
    inside: bool,
    cur: Seq<char>,
    acc: Seq<Seq<char>>,
) -> Seq<Seq<char>>
    decreases s.len(),
{
    if s.len() == 0 {
        acc
    } else {
        let c = s[0];
        let rest = s.skip(1);
        if c == '{' {
            spec_tied_rec(rest, true, Seq::empty(), acc)
        } else if c == '}' {
            if inside {
                spec_tied_rec(rest, false, Seq::empty(), acc.push(spec_trim(cur)))
            } else {
                spec_tied_rec(rest, false, cur, acc)
            }
        } else if inside {
            spec_tied_rec(rest, true, cur.push(c), acc)
        } else {
            spec_tied_rec(rest, inside, cur, acc)
        }
    }
}

/// The tied-variable names of a text.
pub open spec fn spec_tied_variables(s: Seq<char>) -> Seq<Seq<char>> {
    spec_tied_rec(s, false, Seq::empty(), Seq::empty())
}

/// Extracts the `{identifier}` placeholders of a text, trimmed, in order.
pub fn extract_tied_variables(text: &str) -> (r: Vec<String>)
    ensures
        r.deep_view() == spec_tied_variables(text@),
{
    let len = text.unicode_len();
    let mut inside = false;
    let mut cur = String::new();
    let mut acc: Vec<String> = Vec::new();
    let mut i: usize = 0;
    proof {
        assert(text@.skip(0) =~= text@);
        assert(acc.deep_view() =~= Seq::<Seq<char>>::empty());
        assert(cur@ =~= Seq::<char>::empty());
    }
    while i < len
        invariant
            len == text@.len(),
            i <= len,
            spec_tied_variables(text@) == spec_tied_rec(
                text@.skip(i as int),
                inside,
                cur@,
                acc.deep_view(),
            ),
        decreases len - i,
    {
        proof {
            assert(text@.skip(i as int)[0] == text@[i as int]);
            assert(text@.skip(i as int).skip(1) =~= text@.skip(i as int + 1));
        }
        let c = text.get_char(i);
        if c == '{' {
            inside = true;
            cur = String::new();
            proof {
                assert(cur@ =~= Seq::<char>::empty());
            }
        } else if c == '}' {
            if inside {
                inside = false;
                let name = trim(cur.as_str()).to_owned();
                let ghost acc_before = acc.deep_view();
                acc.push(name);
                proof {
                    assert(acc.deep_view().len() == acc_before.len() + 1);
                    assert(forall|t: int|
                        0 <= t < acc_before.len() ==> acc.deep_view()[t] == acc_before[t]);
                    assert(acc.deep_view()[acc_before.len() as int] == spec_trim(cur@));
                    assert(acc.deep_view() =~= acc_before.push(spec_trim(cur@)));
                }
                cur = String::new();
                proof {
                    assert(cur@ =~= Seq::<char>::empty());
                }
            }
        } else if inside {
            push_char(&mut cur, c);
        }
        i = i + 1;
    }
    proof {
        assert(text@.skip(len as int) =~= Seq::<char>::empty());
    }
    acc
}

impl Page {
    /// An empty page: the state at the start of a render pass.
    pub fn new() -> (r: Page)
        ensures
            r@.widgets =~= Seq::<WidgetModel>::empty(),
            r@.records =~= Seq::<RecordModel>::empty(),
            r@.log =~= Seq::<LogEntryModel>::empty(),
    {
        let r = Page { widgets: Vec::new(), records: Vec::new(), log: Vec::new() };
        proof {
            assert(r@.widgets =~= Seq::<WidgetModel>::empty());
            assert(r@.records =~= Seq::<RecordModel>::empty());
            assert(r@.log =~= Seq::<LogEntryModel>::empty());
        }
        r
    }

    /// Appends one diagnostics entry.
    pub fn log_message(&mut self, level: LogLevel, message: String)
        ensures
            final(self)@ == (PageModel {
                log: old(self)@.log.push(spec_log_entry(level, message@)),
                ..old(self)@
            }),
    {
        let ghost before = self@;
        self.log.push(LogEntry { level, message });
        proof {
            assert(self@.log.len() == before.log.len() + 1);
            assert(forall|t: int| 0 <= t < before.log.len() ==> self@.log[t] == before.log[t]);
            assert(self@.log[before.log.len() as int] == spec_log_entry(level, message@));
            assert(self@.log =~= before.log.push(spec_log_entry(level, message@)));
            assert(self@.widgets =~= before.widgets);
            assert(self@.records =~= before.records);
            assert(self@ =~= (PageModel { log: before.log.push(spec_log_entry(level, message@)), ..before }));
        }
    }

    /// Single-result lookup: the first registry entry, in insertion order,
    /// whose class list contains the class; an error when none does.
    pub fn lookup_single(&self, class: &str) -> (r: Result<usize, LookupError>)
        ensures
            match r {
                Ok(i) => {
                    &&& spec_matching_records(self@.records, class@).len() > 0
                    &&& i as int == spec_matching_records(self@.records, class@)[0]
                },
                Err(_) => spec_matching_records(self@.records, class@).len() == 0,
            },
    {
        let matches_found = self.lookup_all(class);
        if matches_found.len() > 0 {
            let i = matches_found[0];
            proof {
                assert(matches_found@[0] as int == spec_matching_records(
                    self@.records,
                    class@,
                )[0]);
            }
            Ok(i)
        } else {
            Err(LookupError { message: String::from_str("Tag not found") })
        }
    }

    /// Multi-result lookup: every matching registry entry, in insertion
    /// order; empty when none matches, never an error.
    pub fn lookup_all(&self, class: &str) -> (r: Vec<usize>)
        ensures
            r@.len() == spec_matching_records(self@.records, class@).len(),
            forall|k: int|
                0 <= k < r@.len() ==> r@[k] as int == spec_matching_records(
                    self@.records,
                    class@,
                )[k],
    {
        let ghost recs = self@.records;
        let mut r: Vec<usize> = Vec::new();
        let mut i: usize = 0;
        proof {
            assert(recs.take(0) =~= Seq::<RecordModel>::empty());
        }
        while i < self.records.len()
            invariant
                i <= self.records.len(),
                recs == self@.records,
                recs.len() == self.records.len(),
                r@.len() == spec_matching_records(recs.take(i as int), class@).len(),
                forall|k: int|
                    0 <= k < r@.len() ==> r@[k] as int == spec_matching_records(
                        recs.take(i as int),
                        class@,
                    )[k],
            decreases self.records.len() - i,
        {
            proof {
                assert(recs.take(i as int + 1).take(i as int) =~= recs.take(i as int));
                assert(recs.take(i as int + 1).last() == recs[i as int]);
                assert(recs[i as int] == self.records[i as int]@);
            }
            if contains_string(&self.records[i].classes, class) {
                r.push(i);
            }
            i = i + 1;
        }
        proof {
            assert(recs.take(self.records.len() as int) =~= recs);
        }
        r
    }

    /// The template binder: re-reads every registered primitive's textual
    /// content and records the enclosed `{identifier}` names as that entry's
    /// tied variables.  An entry whose handle points outside the arena is
    /// left untouched.
    pub fn bind_templates(&mut self)
        ensures
            final(self)@.widgets == old(self)@.widgets,
            final(self)@.log == old(self)@.log,
            final(self)@.records.len() == old(self)@.records.len(),
            forall|k: int|
                0 <= k < old(self)@.records.len() ==> final(self)@.records[k]
                    == spec_bind_record(old(self)@.records[k], old(self)@.widgets),
    {
        let ghost recs0 = self@.records;
        let ghost widgets0 = self@.widgets;
        let mut i: usize = 0;
        while i < self.records.len()
            invariant
                self@.widgets == widgets0,
                self@.log == old(self)@.log,
                self@.records.len() == recs0.len(),
                recs0 == old(self)@.records,
                widgets0 == old(self)@.widgets,
                i <= self.records.len(),
                forall|k: int|
                    0 <= k < i ==> self@.records[k] == spec_bind_record(recs0[k], widgets0),
                forall|k: int| i <= k < recs0.len() ==> self@.records[k] == recs0[k],
            decreases self.records.len() - i,
        {
            let ghost recs_entry = self@.records;
            let handle = self.records[i].handle;
            proof {
                assert(self@.records[i as int] == recs0[i as int]);
                assert(recs0[i as int].handle == handle as int);
                assert(widgets0.len() == self.widgets.len());
            }
            if handle < self.widgets.len() {
                let tied = extract_tied_variables(self.widgets[handle].text.as_str());
                let mut entry = self.records.remove(i);
                entry.tied_variables = tied;
                self.records.insert(i, entry);
                proof {
                    assert(self@.records.len() == recs_entry.len());
                    assert(forall|k: int|
                        0 <= k < recs_entry.len() && k != i ==> self@.records[k]
                            == recs_entry[k]);
                    assert(self@.records[i as int].handle == recs0[i as int].handle);
                    assert(self@.records[i as int].classes =~= recs0[i as int].classes);
                    assert(widgets0[handle as int].text == self.widgets[handle as int]@.text);
                    assert(self@.records[i as int].tied_variables == spec_tied_variables(
                        widgets0[handle as int].text,
                    ));
                    assert(self@.records[i as int] =~= spec_bind_record(
                        recs0[i as int],
                        widgets0,
                    ));
                }
            } else {
                proof {
                    assert(spec_bind_record(recs0[i as int], widgets0) == recs0[i as int]);
                }
            }
            proof {
                assert forall|k: int| 0 <= k < i + 1 implies self@.records[k] == spec_bind_record(
                    recs0[k],
                    widgets0,
                ) by {
                    if k < i {
                        assert(self@.records[k] == recs_entry[k]);
                        assert(recs_entry[k] == spec_bind_record(recs0[k], widgets0));
                    } else {
                        assert(self@.records[i as int] == spec_bind_record(
                            recs0[i as int],
                            widgets0,
                        ));
                    }
                }
                assert forall|k: int| i + 1 <= k < recs0.len() implies self@.records[k]
                    == recs0[k] by {
                    assert(self@.records[k] == recs_entry[k]);
                }
            }
            i = i + 1;
        }
    }
}

/// A registry entry after template binding: its tied variables re-read from
/// its primitive's textual content.
pub open spec fn spec_bind_record(r: RecordModel, widgets: Seq<WidgetModel>) -> RecordModel {
    if 0 <= r.handle < widgets.len() {
        RecordModel { tied_variables: spec_tied_variables(widgets[r.handle].text), ..r }
    } else {
        r
    }
}

/// True when the list holds this exact string.
pub fn contains_string(list: &Vec<String>, needle: &str) -> (r: bool)
    ensures
        r == list.deep_view().contains(needle@),
{
    let mut i: usize = 0;
    while i < list.len()
        invariant
            i <= list.len(),
            forall|k: int| 0 <= k < i ==> list.deep_view()[k] != needle@,
        decreases list.len() - i,
    {
        if crate::text::str_eq(list[i].as_str(), needle) {
            proof {
                assert(list.deep_view()[i as int] == needle@);
            }
            return true;
        }
        i = i + 1;
    }
    proof {
        assert(forall|k: int| 0 <= k < list.deep_view().len() ==> list.deep_view()[k] != needle@);
    }
    false
}

} // verus!
