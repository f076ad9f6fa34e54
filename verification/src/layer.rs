//! Normalizing events: an event's own fields are combined with those of its
//! active spans into one self-contained record.
//!
//! When the same name occurs more than once, an event field wins over a span
//! field, and an inner span wins over an outer span.

use vstd::prelude::*;
use std::time::SystemTime;
use crate::event::{take_message, value_text, FieldView, Fields};
use crate::level::Level;

verus! {

/// A point in time, carried through unchanged.
#[verifier::external_type_specification]
#[verifier::external_body]
pub struct ExSystemTime(SystemTime);

/// The value of `name` in the first map of `scope` that holds it.
pub open spec fn scope_lookup(scope: Seq<Map<Seq<char>, FieldView>>, name: Seq<char>) -> Option<
    FieldView,
>
    decreases scope.len(),
{
    if scope.len() == 0 {
        None
    } else if scope[0].contains_key(name) {
        Some(scope[0][name])
    } else {
        scope_lookup(scope.drop_first(), name)
    }
}

/// `fields` after inheriting, in order, the values of each map of `scope`
/// whose names hold no value yet.
pub open spec fn inherit_scope(
    fields: Map<Seq<char>, FieldView>,
    scope: Seq<Map<Seq<char>, FieldView>>,
) -> Map<Seq<char>, FieldView>
    decreases scope.len(),
{
    if scope.len() == 0 {
        fields
    } else {
        inherit_scope(scope[0].union_prefer_right(fields), scope.drop_first())
    }
}

/// The maps that a sequence of field collections holds.
pub open spec fn scope_views(scope: Seq<Fields>) -> Seq<Map<Seq<char>, FieldView>> {
    scope.map_values(|f: Fields| f@)
}

/// Precedence of field values: a name has a value after inheriting when the
/// event or some span holds it, and the value is the event's own, or else the
/// one of the first span (the innermost, when spans are listed from the event
/// outwards) that holds the name.
pub proof fn lemma_field_precedence(
    fields: Map<Seq<char>, FieldView>,
    scope: Seq<Map<Seq<char>, FieldView>>,
    name: Seq<char>,
)
    ensures
        inherit_scope(fields, scope).contains_key(name) <==> (fields.contains_key(name)
            || scope_lookup(scope, name) is Some),
        fields.contains_key(name) ==> inherit_scope(fields, scope)[name] == fields[name],
        !fields.contains_key(name) && scope_lookup(scope, name) is Some ==> inherit_scope(
            fields,
            scope,
        )[name] == scope_lookup(scope, name)->Some_0,
    decreases scope.len(),
{
    if scope.len() > 0 {
        lemma_field_precedence(scope[0].union_prefer_right(fields), scope.drop_first(), name);
    }
}

/// Lets `fields` inherit the values of each collection of `scope`, in order,
/// whose names hold no value yet.
pub fn inherit_from_scope(fields: &mut Fields, scope: &[Fields])
    ensures
        final(fields)@ == inherit_scope(old(fields)@, scope_views(scope@)),
{
    let ghost all = scope_views(scope@);
    let mut i: usize = 0;
    assert(all.skip(0) =~= all);
    while i < scope.len()
        invariant
            i <= scope@.len(),
            all == scope_views(scope@),
            inherit_scope(old(fields)@, all) == inherit_scope(fields@, all.skip(i as int)),
        decreases scope@.len() - i,
    {
        fields.inherit(&scope[i]);
        assert(all.skip(i as int).drop_first() =~= all.skip(i + 1));
        assert(all.skip(i as int)[0] == scope@[i as int]@);
        i = i + 1;
    }
    assert(all.skip(i as int) =~= Seq::<Map<Seq<char>, FieldView>>::empty());
}

/// One event, normalized: its level, its message, and its effective fields.
pub struct StructuredEvent {
    /// When the event happened.
    pub timestamp: SystemTime,
    /// The event's level.
    pub level: Level,
    /// The event's message.
    pub message: String,
    /// The event's effective fields.
    ///
    /// This combines fields recorded directly on the event with fields
    /// inherited from its active span hierarchy. When names collide, event
    /// fields take precedence, followed by the innermost span and then its
    /// ancestors.
    pub fields: Fields,
}

/// Normalizes an event: its `message` field becomes the message (a string
/// as it is, any other value as its JSON text, the empty string when there
/// is none), and its other fields inherit those of the spans of `scope`,
/// listed from the innermost span outwards.
pub fn structured_event(
    timestamp: SystemTime,
    level: Level,
    event_fields: Fields,
    scope: &[Fields],
) -> (event: StructuredEvent)
    ensures
        event.timestamp == timestamp,
        event.level == level,
        event.message@ == (if event_fields@.contains_key("message"@) {
            value_text(event_fields@["message"@])
        } else {
            Seq::empty()
        }),
        event.fields@ == inherit_scope(event_fields@.remove("message"@), scope_views(scope@)),
{
    let mut fields = event_fields;
    let message = take_message(&mut fields);
    inherit_from_scope(&mut fields, scope);
    StructuredEvent { timestamp, level, message, fields }
}

/// Produces normalized events with a self-contained set of effective fields,
/// and hands each to its sink.
///
/// Fields from the active span hierarchy are inherited automatically. When
/// the same name occurs more than once, an event field wins over a span
/// field, and an inner span wins over an outer span.
pub struct StructuredEventLayer<K> {
    sink: K,
}

impl<K> StructuredEventLayer<K> {
    /// The sink that receives the events.
    pub closed spec fn spec_sink(&self) -> K {
        self.sink
    }

    /// A layer that hands its events to `sink`.
    pub fn new(sink: K) -> (layer: Self)
        ensures
            layer.spec_sink() == sink,
    {
        StructuredEventLayer { sink }
    }

    /// The sink that receives the events.
    pub fn sink(&self) -> (sink: &K)
        ensures
            *sink == self.spec_sink(),
    {
        &self.sink
    }
}

} // verus!
