//! Turning the fields of a captured span or event into arguments, interning
//! every string on the way.

use crate::draft::{intern_string, Draft};
use crate::emission::{
    lemma_pending_views_push, pending_views, PendingArgument, PendingArgumentView, PendingString,
};
use crate::field::{field_views, Field, FieldValue, FieldValueView, FieldView};
use crate::intern::StringCache;
use crate::record::{record_views, Record};
use vstd::prelude::*;

verus! {

impl Draft {
    /// Turns one field into an argument: its name is interned first, then,
    /// where the value is text, the value. Text of either kind becomes a
    /// string argument.
    pub open spec fn argument(self, field: FieldView) -> (Draft, PendingArgumentView) {
        let (named, name) = self.string(field.name);
        match field.value {
            FieldValueView::Bool(value) => (named, PendingArgumentView::Boolean(name, value)),
            FieldValueView::I64(value) => (named, PendingArgumentView::Int64(name, value)),
            FieldValueView::U64(value) => (named, PendingArgumentView::UInt64(name, value)),
            FieldValueView::Float(bits) => (named, PendingArgumentView::Float(name, bits)),
            FieldValueView::Str(text) => {
                let (valued, value) = named.string(text);
                (valued, PendingArgumentView::Str(name, value))
            },
            FieldValueView::Debug(text) => {
                let (valued, value) = named.string(text);
                (valued, PendingArgumentView::Str(name, value))
            },
        }
    }

    /// Turns the fields into arguments, one after the other.
    pub open spec fn arguments(self, fields: Seq<FieldView>) -> (Draft, Seq<PendingArgumentView>)
        decreases fields.len(),
    {
        if fields.len() == 0 {
            (self, Seq::empty())
        } else {
            let (before, arguments) = self.arguments(fields.drop_last());
            let (after, argument) = before.argument(fields.last());
            (after, arguments.push(argument))
        }
    }
}

/// Collects the arguments of one captured span or event, together with the
/// intern records that they need.
pub struct ArgumentVisitor {
    pub arguments: Vec<PendingArgument>,
    pub interns: Vec<Record>,
}

impl ArgumentVisitor {
    /// The draft that the visitor and `cache` stand for.
    pub open spec fn draft(&self, cache: &StringCache) -> Draft {
        Draft { strings: cache@, interns: record_views(self.interns@) }
    }

    /// Whether the visitor, with `cache`, went from `before` to `after` by
    /// taking `field`.
    pub open spec fn took(
        before: (&ArgumentVisitor, &StringCache),
        after: (&ArgumentVisitor, &StringCache),
        field: FieldView,
    ) -> bool {
        let draft = before.0.draft(before.1);
        &&& after.0.draft(after.1) == draft.argument(field).0
        &&& pending_views(after.0.arguments@) == pending_views(before.0.arguments@).push(
            draft.argument(field).1,
        )
    }

    /// A visitor without arguments, for an emission whose intern records so
    /// far are `interns`.
    pub fn new(interns: Vec<Record>) -> (visitor: Self)
        ensures
            visitor.interns == interns,
            visitor.arguments@.len() == 0,
    {
        ArgumentVisitor { arguments: Vec::new(), interns }
    }

    /// Interns `value` for a field's name or text: see [`Draft::string`].
    pub fn get_string_ref(&mut self, cache: &mut StringCache, value: &str) -> (pending:
        PendingString)
        requires
            old(cache).wf(),
        ensures
            final(cache).wf(),
            final(self).arguments == old(self).arguments,
            final(self).draft(final(cache)) == old(self).draft(old(cache)).string(value@).0,
            pending@ == old(self).draft(old(cache)).string(value@).1,
    {
        intern_string(cache, &mut self.interns, value)
    }

    fn push(&mut self, argument: PendingArgument)
        ensures
            final(self).interns == old(self).interns,
            pending_views(final(self).arguments@) == pending_views(old(self).arguments@).push(
                argument@,
            ),
    {
        proof {
            lemma_pending_views_push(self.arguments@, argument);
        }
        self.arguments.push(argument);
    }

    /// Takes a value that has no argument type of its own, as formatted
    /// text: it becomes a string argument.
    pub fn record_debug(&mut self, cache: &mut StringCache, name: &str, text: &str)
        requires
            old(cache).wf(),
        ensures
            final(cache).wf(),
            Self::took(
                (old(self), old(cache)),
                (final(self), final(cache)),
                FieldView { name: name@, value: FieldValueView::Debug(text@) },
            ),
    {
        let name_ref = self.get_string_ref(cache, name);
        let value_ref = self.get_string_ref(cache, text);
        self.push(PendingArgument::Str(name_ref, value_ref));
    }

    /// Takes a signed 64-bit value.
    pub fn record_i64(&mut self, cache: &mut StringCache, name: &str, value: i64)
        requires
            old(cache).wf(),
        ensures
            final(cache).wf(),
            Self::took(
                (old(self), old(cache)),
                (final(self), final(cache)),
                FieldView { name: name@, value: FieldValueView::I64(value) },
            ),
    {
        let name_ref = self.get_string_ref(cache, name);
        self.push(PendingArgument::Int64(name_ref, value));
    }

    /// Takes an unsigned 64-bit value.
    pub fn record_u64(&mut self, cache: &mut StringCache, name: &str, value: u64)
        requires
            old(cache).wf(),
        ensures
            final(cache).wf(),
            Self::took(
                (old(self), old(cache)),
                (final(self), final(cache)),
                FieldView { name: name@, value: FieldValueView::U64(value) },
            ),
    {
        let name_ref = self.get_string_ref(cache, name);
        self.push(PendingArgument::UInt64(name_ref, value));
    }

    /// Takes a boolean.
    pub fn record_bool(&mut self, cache: &mut StringCache, name: &str, value: bool)
        requires
            old(cache).wf(),
        ensures
            final(cache).wf(),
            Self::took(
                (old(self), old(cache)),
                (final(self), final(cache)),
                FieldView { name: name@, value: FieldValueView::Bool(value) },
            ),
    {
        let name_ref = self.get_string_ref(cache, name);
        self.push(PendingArgument::Boolean(name_ref, value));
    }

    /// Takes a string: both the name and the text are interned.
    pub fn record_str(&mut self, cache: &mut StringCache, name: &str, value: &str)
        requires
            old(cache).wf(),
        ensures
            final(cache).wf(),
            Self::took(
                (old(self), old(cache)),
                (final(self), final(cache)),
                FieldView { name: name@, value: FieldValueView::Str(value@) },
            ),
    {
        let name_ref = self.get_string_ref(cache, name);
        let value_ref = self.get_string_ref(cache, value);
        self.push(PendingArgument::Str(name_ref, value_ref));
    }

    /// Takes a 64-bit floating-point value, given by its bit pattern.
    pub fn record_f64(&mut self, cache: &mut StringCache, name: &str, bits: u64)
        requires
            old(cache).wf(),
        ensures
            final(cache).wf(),
            Self::took(
                (old(self), old(cache)),
                (final(self), final(cache)),
                FieldView { name: name@, value: FieldValueView::Float(bits) },
            ),
    {
        let name_ref = self.get_string_ref(cache, name);
        self.push(PendingArgument::Float(name_ref, bits));
    }

    /// Takes one field, by the type of its value: see [`Draft::argument`].
    pub fn record(&mut self, cache: &mut StringCache, field: &Field)
        requires
            old(cache).wf(),
        ensures
            final(cache).wf(),
            Self::took((old(self), old(cache)), (final(self), final(cache)), field@),
    {
        let name = field.name.as_str();
        match &field.value {
            FieldValue::Bool(value) => self.record_bool(cache, name, *value),
            FieldValue::I64(value) => self.record_i64(cache, name, *value),
            FieldValue::U64(value) => self.record_u64(cache, name, *value),
            FieldValue::Float(bits) => self.record_f64(cache, name, *bits),
            FieldValue::Str(text) => self.record_str(cache, name, text.as_str()),
            FieldValue::Debug(text) => self.record_debug(cache, name, text.as_str()),
        }
    }
}

/// Turns the fields of a captured span or event into arguments, in order,
/// for an emission whose intern records so far are `interns`: see
/// [`Draft::arguments`].
pub fn record_fields(cache: &mut StringCache, interns: Vec<Record>, fields: &Vec<Field>) -> (out: (
    Vec<Record>,
    Vec<PendingArgument>,
))
    requires
        old(cache).wf(),
    ensures
        final(cache).wf(),
        ({
            let before = Draft { strings: old(cache)@, interns: record_views(interns@) };
            let planned = before.arguments(field_views(fields@));
            &&& final(cache)@ == planned.0.strings
            &&& record_views(out.0@) == planned.0.interns
            &&& pending_views(out.1@) == planned.1
        }),
{
    let ghost before = Draft { strings: cache@, interns: record_views(interns@) };
    let ghost views = field_views(fields@);
    let mut visitor = ArgumentVisitor::new(interns);
    let mut i: usize = 0;
    proof {
        assert(views.take(0) =~= Seq::empty());
        assert(pending_views(visitor.arguments@) =~= Seq::empty());
    }
    while i < fields.len()
        invariant
            i <= fields.len(),
            cache.wf(),
            views == field_views(fields@),
            visitor.draft(cache) == before.arguments(views.take(i as int)).0,
            pending_views(visitor.arguments@) == before.arguments(views.take(i as int)).1,
        decreases fields.len() - i,
    {
        proof {
            assert(views.take(i + 1).drop_last() =~= views.take(i as int));
            assert(views.take(i + 1).last() == fields@[i as int]@);
        }
        visitor.record(cache, &fields[i]);
        i += 1;
    }
    assert(views.take(fields.len() as int) =~= views);
    (visitor.interns, visitor.arguments)
}

} // verus!
