//! The capture filter: which spans and events are recorded, and under which
//! category.

use crate::field::{field_views, Field, FieldValue, FieldValueView, FieldView};
use crate::text::{label_view, str_eq, CAPTURE_FIELD, CATEGORY_FIELD, DEFAULT_CATEGORY};
use vstd::prelude::*;

verus! {

/// What a set of fields says of its owner: whether it opts into tracing, and
/// the category it names, if any.
pub struct Selection {
    pub captured: bool,
    pub category: Option<Seq<char>>,
}

/// Whether the field is the capture flag, set.
pub open spec fn is_capture_flag(field: FieldView) -> bool {
    field.name == CAPTURE_FIELD@ && field.value == FieldValueView::Bool(true)
}

/// Whether the field is a category label.
pub open spec fn is_category_label(field: FieldView) -> bool {
    field.name == CATEGORY_FIELD@ && field.value is Str
}

/// Whether one of the fields is the capture flag, set.
pub open spec fn capture_flag(fields: Seq<FieldView>) -> bool {
    exists|i: int| 0 <= i < fields.len() && is_capture_flag(#[trigger] fields[i])
}

/// The category that the fields name: the text of the last category label
/// among them.
pub open spec fn category_label(fields: Seq<FieldView>) -> Option<Seq<char>>
    decreases fields.len(),
{
    if fields.len() == 0 {
        None
    } else if is_category_label(fields.last()) {
        Some(fields.last().value->Str_0)
    } else {
        category_label(fields.drop_last())
    }
}

/// What the fields say of their owner. Only the capture flag and the
/// category label count; every other field is passed over.
pub open spec fn select(fields: Seq<FieldView>) -> Selection {
    Selection { captured: capture_flag(fields), category: category_label(fields) }
}

impl Selection {
    /// The selection before any field was seen.
    pub open spec fn start() -> Selection {
        Selection { captured: false, category: None }
    }

    /// The selection after one more field.
    pub open spec fn after(self, field: FieldView) -> Selection {
        Selection {
            captured: self.captured || is_capture_flag(field),
            category: if is_category_label(field) {
                Some(field.value->Str_0)
            } else {
                self.category
            },
        }
    }

    /// The category of a captured span: the one it names, else the default.
    pub open spec fn span_category(self) -> Seq<char> {
        match self.category {
            Some(category) => category,
            None => DEFAULT_CATEGORY@,
        }
    }

    /// Whether an event with this selection is recorded inside the span
    /// `parent`: its own flag suffices, and so does that of the span.
    pub open spec fn event_captured(self, parent: Option<Selection>) -> bool {
        self.captured || (parent is Some && parent->0.captured)
    }

    /// The category of a recorded event: the one it names; else the
    /// category of the span `parent`, where that span is captured; else the
    /// default. A span that is not captured lends nothing.
    pub open spec fn event_category(self, parent: Option<Selection>) -> Seq<char> {
        match self.category {
            Some(category) => category,
            None => match parent {
                Some(span) => if span.captured {
                    span.span_category()
                } else {
                    DEFAULT_CATEGORY@
                },
                None => DEFAULT_CATEGORY@,
            },
        }
    }
}

/// Selecting from one more field is one step from the selection so far.
proof fn lemma_select_push(fields: Seq<FieldView>, field: FieldView)
    ensures
        select(fields.push(field)) == select(fields).after(field),
{
    let longer = fields.push(field);
    assert(longer.drop_last() =~= fields);
    assert(longer.last() == field);
    if capture_flag(longer) {
        let i = choose|i: int| 0 <= i < longer.len() && is_capture_flag(#[trigger] longer[i]);
        if i < fields.len() {
            assert(is_capture_flag(fields[i]));
        }
    }
    if capture_flag(fields) {
        let i = choose|i: int| 0 <= i < fields.len() && is_capture_flag(#[trigger] fields[i]);
        assert(is_capture_flag(longer[i]));
    }
    if is_capture_flag(field) {
        assert(is_capture_flag(longer[fields.len() as int]));
    }
}

/// The decision stored with a span when it is created, and read by the
/// events inside it and when it closes.
#[derive(Debug, PartialEq, Eq)]
pub struct SpanMetadata {
    pub captured: bool,
    pub category: Option<String>,
}

impl View for SpanMetadata {
    type V = Selection;

    open spec fn view(&self) -> Selection {
        Selection { captured: self.captured, category: label_view(self.category) }
    }
}

/// Reads the capture flag and the category label off a set of fields.
#[derive(Debug, PartialEq, Eq)]
pub struct FtfFilter {
    pub should_record: bool,
    pub category: Option<String>,
}

impl View for FtfFilter {
    type V = Selection;

    open spec fn view(&self) -> Selection {
        Selection { captured: self.should_record, category: label_view(self.category) }
    }
}

impl FtfFilter {
    /// A filter that has seen no field: nothing is captured, no category.
    pub fn new() -> (filter: Self)
        ensures
            filter@ == Selection::start(),
    {
        FtfFilter { should_record: false, category: None }
    }

    /// Takes a boolean field: the capture flag, set, marks the owner as
    /// captured. Nothing else changes the filter.
    pub fn record_bool(&mut self, name: &str, value: bool)
        ensures
            final(self)@ == old(self)@.after(
                FieldView { name: name@, value: FieldValueView::Bool(value) },
            ),
    {
        if value && str_eq(name, CAPTURE_FIELD) {
            self.should_record = true;
        }
    }

    /// Takes a string field: a category label replaces the category.
    pub fn record_str(&mut self, name: &str, value: &str)
        ensures
            final(self)@ == old(self)@.after(
                FieldView { name: name@, value: FieldValueView::Str(value@) },
            ),
    {
        if str_eq(name, CATEGORY_FIELD) {
            self.category = Some(value.to_owned());
        }
    }

    /// Takes one field of any type. Only booleans and strings can change
    /// the filter.
    pub fn record(&mut self, field: &Field)
        ensures
            final(self)@ == old(self)@.after(field@),
    {
        match &field.value {
            FieldValue::Bool(value) => self.record_bool(field.name.as_str(), *value),
            FieldValue::Str(text) => self.record_str(field.name.as_str(), text.as_str()),
            _ => {},
        }
    }

    /// The filter after all the fields, taken in order.
    pub fn scan(fields: &Vec<Field>) -> (filter: Self)
        ensures
            filter@ == select(field_views(fields@)),
    {
        let mut filter = FtfFilter::new();
        let mut i: usize = 0;
        assert(field_views(fields@).take(0) =~= Seq::empty());
        while i < fields.len()
            invariant
                i <= fields.len(),
                filter@ == select(field_views(fields@).take(i as int)),
            decreases fields.len() - i,
        {
            filter.record(&fields[i]);
            proof {
                let views = field_views(fields@);
                lemma_select_push(views.take(i as int), views[i as int]);
                assert(views.take(i as int).push(views[i as int]) =~= views.take(i + 1));
            }
            i += 1;
        }
        assert(field_views(fields@).take(fields.len() as int) =~= field_views(fields@));
        filter
    }

    /// The decision to store with a span that has these fields.
    pub fn into_metadata(self) -> (metadata: SpanMetadata)
        ensures
            metadata@ == self@,
    {
        SpanMetadata { captured: self.should_record, category: self.category }
    }

    /// The category under which a captured span with these fields is
    /// recorded.
    pub fn span_category(&self) -> (category: String)
        ensures
            category@ == self@.span_category(),
    {
        match &self.category {
            Some(category) => category.clone(),
            None => DEFAULT_CATEGORY.to_owned(),
        }
    }

    /// Whether an event with these fields is recorded inside the span whose
    /// stored decision is `parent`.
    pub fn event_captured(&self, parent: Option<&SpanMetadata>) -> (captured: bool)
        ensures
            captured == self@.event_captured(parent_view(parent)),
    {
        if self.should_record {
            true
        } else {
            match parent {
                Some(span) => span.captured,
                None => false,
            }
        }
    }

    /// The category under which an event with these fields is recorded
    /// inside the span whose stored decision is `parent`.
    pub fn event_category(&self, parent: Option<&SpanMetadata>) -> (category: String)
        ensures
            category@ == self@.event_category(parent_view(parent)),
    {
        match &self.category {
            Some(category) => category.clone(),
            None => match parent {
                Some(span) => if span.captured {
                    span.span_category()
                } else {
                    DEFAULT_CATEGORY.to_owned()
                },
                None => DEFAULT_CATEGORY.to_owned(),
            },
        }
    }
}

impl SpanMetadata {
    /// The category under which the span is recorded when it closes: the
    /// stored one, else the default.
    pub fn span_category(&self) -> (category: String)
        ensures
            category@ == self@.span_category(),
    {
        match &self.category {
            Some(category) => category.clone(),
            None => DEFAULT_CATEGORY.to_owned(),
        }
    }
}

/// The stored decision of the enclosing span, if there is one.
pub open spec fn parent_view(parent: Option<&SpanMetadata>) -> Option<Selection> {
    match parent {
        Some(span) => Some(span@),
        None => None,
    }
}

} // verus!
