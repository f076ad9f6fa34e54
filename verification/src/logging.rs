//! Per-event trace rows with request correlation.
//!
//! A request span records a `request_id`; every event fired under that span
//! carries the id of the nearest enclosing span that has one. The fields of an
//! event are split into its message and the remaining fields, which become
//! the row's payload.

use vstd::prelude::*;
use vstd::string::StrSliceExecFns;
use vstd::string::StringExecFns;
use crate::event::{entries_map, value_text, FieldValue, FieldView, Fields};

verus! {

/// The name of the span field that holds the request id.
pub const TRACE_REQUEST_ID: &'static str = "request_id";

/// The name of the event field that holds the message.
pub const MESSAGE_FIELD: &'static str = "message";

/// `s` without its leading `"` characters.
pub open spec fn trim_leading_quotes(s: Seq<char>) -> Seq<char>
    decreases s.len(),
{
    if s.len() > 0 && s[0] == '"' {
        trim_leading_quotes(s.drop_first())
    } else {
        s
    }
}

/// `s` without its trailing `"` characters.
pub open spec fn trim_trailing_quotes(s: Seq<char>) -> Seq<char>
    decreases s.len(),
{
    if s.len() > 0 && s.last() == '"' {
        trim_trailing_quotes(s.drop_last())
    } else {
        s
    }
}

/// `s` without its leading and trailing `"` characters.
pub open spec fn trim_quotes(s: Seq<char>) -> Seq<char> {
    trim_trailing_quotes(trim_leading_quotes(s))
}

/// Trimming quotes removes a run of `"` at the start and a run of `"` at
/// the end, and nothing else: the result is a stretch of `s` that neither
/// starts nor ends with `"`, and only `"` stands outside it.
pub proof fn lemma_trim_quotes(s: Seq<char>)
    ensures
        exists|i: int, j: int|
            0 <= i <= j <= s.len() && trim_quotes(s) == s.subrange(i, j) && (forall|k: int|
                0 <= k < i ==> s[k] == '"') && (forall|k: int| j <= k < s.len() ==> s[k] == '"'),
        trim_quotes(s).len() > 0 ==> trim_quotes(s)[0] != '"' && trim_quotes(s).last() != '"',
{
    let (i, u) = lemma_trim_leading(s);
    let (j, w) = lemma_trim_trailing(u);
    assert(trim_quotes(s) == s.subrange(i, i + j)) by {
        assert(u.subrange(0, j) =~= s.subrange(i, i + j));
    }
    assert forall|k: int| i + j <= k < s.len() implies s[k] == '"' by {
        assert(s[k] == u[k - i]);
    }
    assert(exists|i2: int, j2: int|
        0 <= i2 <= j2 <= s.len() && trim_quotes(s) == s.subrange(i2, j2) && (forall|k: int|
            0 <= k < i2 ==> s[k] == '"') && (forall|k: int| j2 <= k < s.len() ==> s[k] == '"')) by {
        assert(0 <= i <= i + j <= s.len());
    }
    if trim_quotes(s).len() > 0 {
        assert(trim_quotes(s)[0] == u[0]);
    }
}

/// Trimming leading quotes drops the first `i` characters, all `"`, and the
/// rest does not start with `"`.
proof fn lemma_trim_leading(s: Seq<char>) -> (r: (int, Seq<char>))
    ensures
        0 <= r.0 <= s.len(),
        r.1 == s.subrange(r.0, s.len() as int),
        r.1 == trim_leading_quotes(s),
        forall|k: int| 0 <= k < r.0 ==> s[k] == '"',
        r.1.len() > 0 ==> r.1[0] != '"',
    decreases s.len(),
{
    if s.len() > 0 && s[0] == '"' {
        let (i, u) = lemma_trim_leading(s.drop_first());
        assert(s.drop_first().subrange(i, s.len() - 1) =~= s.subrange(i + 1, s.len() as int));
        assert forall|k: int| 0 <= k < i + 1 implies s[k] == '"' by {
            if k > 0 {
                assert(s[k] == s.drop_first()[k - 1]);
            }
        }
        (i + 1, u)
    } else {
        assert(s.subrange(0, s.len() as int) =~= s);
        (0, s)
    }
}

/// Trimming trailing quotes keeps the first `j` characters, after which
/// only `"` stands, and the kept part does not end with `"`.
proof fn lemma_trim_trailing(s: Seq<char>) -> (r: (int, Seq<char>))
    ensures
        0 <= r.0 <= s.len(),
        r.1 == s.subrange(0, r.0),
        r.1 == trim_trailing_quotes(s),
        forall|k: int| r.0 <= k < s.len() ==> s[k] == '"',
        r.1.len() > 0 ==> r.1.last() != '"',
        r.1.len() > 0 ==> r.1[0] == s[0],
    decreases s.len(),
{
    if s.len() > 0 && s.last() == '"' {
        let (j, u) = lemma_trim_trailing(s.drop_last());
        assert(s.drop_last().subrange(0, j) =~= s.subrange(0, j));
        assert forall|k: int| j <= k < s.len() implies s[k] == '"' by {
            if k < s.len() - 1 {
                assert(s[k] == s.drop_last()[k]);
            }
        }
        (j, u)
    } else {
        assert(s.subrange(0, s.len() as int) =~= s);
        (s.len() as int, s)
    }
}

/// The characters of `s`.
fn chars_of(s: &str) -> (chars: Vec<char>)
    ensures
        chars@ == s@,
{
    broadcast use vstd::string::axiom_spec_iter;

    let mut chars: Vec<char> = Vec::new();
    for c in it: s.chars()
        invariant
            it.seq() == s@,
            chars@ == s@.take(it.index()),
    {
        assert(s@.take(it.index() + 1) =~= s@.take(it.index()).push(c));
        chars.push(c);
    }
    assert(s@.take(s@.len() as int) =~= s@);
    chars
}

/// Removes the `"` characters at both ends of `text`, as `str::trim_matches('"')` does.
pub fn strip_quotes(text: &str) -> (stripped: String)
    ensures
        stripped@ == trim_quotes(text@),
{
    let chars = chars_of(text);
    let n = chars.len();
    let ghost s = text@;
    let mut start: usize = 0;
    assert(s.subrange(0, n as int) =~= s);
    while start < n && chars[start] == '"'
        invariant
            start <= n,
            n == s.len(),
            chars@ == s,
            trim_leading_quotes(s) == trim_leading_quotes(s.subrange(start as int, n as int)),
        decreases n - start,
    {
        assert(s.subrange(start as int, n as int).drop_first() =~= s.subrange(start + 1, n as int));
        start = start + 1;
    }
    let ghost t = s.subrange(start as int, n as int);
    assert(trim_leading_quotes(t) == t);
    let mut end: usize = n;
    assert(t.subrange(0, (n - start) as int) =~= t);
    while end > start && chars[end - 1] == '"'
        invariant
            start <= end <= n,
            n == s.len(),
            chars@ == s,
            t == s.subrange(start as int, n as int),
            trim_trailing_quotes(t) == trim_trailing_quotes(t.subrange(0, end - start)),
        decreases end - start,
    {
        assert(t.subrange(0, end - start).drop_last() =~= t.subrange(0, end - start - 1));
        end = end - 1;
    }
    let ghost u = t.subrange(0, end - start);
    assert(trim_trailing_quotes(u) == u);
    assert(u =~= s.subrange(start as int, end as int));
    text.substring_char(start, end).to_owned()
}

/// Whether `name` is the name of the request-id field.
fn is_request_id_field(name: &str) -> (is_it: bool)
    ensures
        is_it == (name@ == TRACE_REQUEST_ID@),
{
    name.to_owned() == TRACE_REQUEST_ID.to_owned()
}

/// Per-span state: the request id that the span recorded, if any.
#[derive(Debug, PartialEq, Eq)]
pub struct SpanState {
    /// The request id recorded on the span.
    pub request_id: Option<String>,
}

impl SpanState {
    /// A span that recorded no request id.
    pub fn new() -> (state: Self)
        ensures
            state.request_id is None,
    {
        SpanState { request_id: None }
    }

    /// Records a string field: a `request_id` becomes the span's request id;
    /// other fields are ignored.
    pub fn record_str(&mut self, name: &str, value: &str)
        ensures
            name@ == TRACE_REQUEST_ID@ ==> (final(self).request_id matches Some(id) && id@ == value@),
            name@ != TRACE_REQUEST_ID@ ==> final(self).request_id == old(self).request_id,
    {
        if is_request_id_field(name) {
            self.request_id = Some(value.to_owned());
        }
    }

    /// Records a field given by its `Debug` text: a `request_id` becomes the
    /// span's request id, without the quotes that the text of a string has;
    /// other fields are ignored.
    pub fn record_debug(&mut self, name: &str, debug_text: &str)
        ensures
            name@ == TRACE_REQUEST_ID@ ==> (final(self).request_id matches Some(id) && id@
                == trim_quotes(debug_text@)),
            name@ != TRACE_REQUEST_ID@ ==> final(self).request_id == old(self).request_id,
    {
        if is_request_id_field(name) {
            self.request_id = Some(strip_quotes(debug_text));
        }
    }
}

impl Default for SpanState {
    /// A span that recorded no request id.
    fn default() -> (state: Self)
        ensures
            state.request_id is None,
    {
        SpanState::new()
    }
}

/// The request ids that a scope of spans recorded.
pub open spec fn scope_request_ids(scope: Seq<SpanState>) -> Seq<Option<Seq<char>>> {
    scope.map_values(|s: SpanState| match s.request_id {
        Some(id) => Some(id@),
        None => None,
    })
}

/// The first request id of `ids`, if any.
pub open spec fn first_request_id(ids: Seq<Option<Seq<char>>>) -> Option<Seq<char>>
    decreases ids.len(),
{
    if ids.len() == 0 {
        None
    } else if ids[0] is Some {
        ids[0]
    } else {
        first_request_id(ids.drop_first())
    }
}

/// The request id found in a scope, listed from the event outwards: the id
/// of the first span that recorded one, however deep it lies; none only when
/// no span of the scope recorded an id.
pub proof fn lemma_nearest_request_id(scope: Seq<SpanState>)
    ensures
        forall|i: int|
            #![trigger scope[i]]
            0 <= i < scope.len() && scope[i].request_id is Some && (forall|j: int|
                0 <= j < i ==> scope[j].request_id is None) ==> first_request_id(
                scope_request_ids(scope),
            ) == Some(scope[i].request_id->Some_0@),
        first_request_id(scope_request_ids(scope)) is None <==> forall|j: int|
            0 <= j < scope.len() ==> (#[trigger] scope[j]).request_id is None,
    decreases scope.len(),
{
    let ids = scope_request_ids(scope);
    if scope.len() > 0 {
        let rest = scope.drop_first();
        lemma_nearest_request_id(rest);
        assert(ids.drop_first() =~= scope_request_ids(rest));
        assert forall|i: int|
            #![trigger scope[i]]
            0 <= i < scope.len() && scope[i].request_id is Some && (forall|j: int|
                0 <= j < i ==> scope[j].request_id is None) implies first_request_id(ids) == Some(
            scope[i].request_id->Some_0@,
        ) by {
            if i > 0 {
                assert(scope[0].request_id is None);
                assert(rest[i - 1] == scope[i]);
                assert forall|j: int| 0 <= j < i - 1 implies rest[j].request_id is None by {
                    assert(rest[j] == scope[j + 1]);
                }
            }
        }
        if first_request_id(ids) is None {
            assert forall|j: int| 0 <= j < scope.len() implies (#[trigger] scope[j]).request_id is None by {
                if j > 0 {
                    assert(rest[j - 1] == scope[j]);
                }
            }
        }
        if forall|j: int| 0 <= j < scope.len() ==> (#[trigger] scope[j]).request_id is None {
            assert(scope[0].request_id is None);
            assert forall|j: int| 0 <= j < rest.len() implies (#[trigger] rest[j]).request_id is None by {
                assert(rest[j] == scope[j + 1]);
            }
        }
    }
}

/// The request id of the nearest span that recorded one, the spans of
/// `scope` listed from the event outwards.
pub fn nearest_request_id(scope: &[SpanState]) -> (id: Option<String>)
    ensures
        match id {
            Some(id) => first_request_id(scope_request_ids(scope@)) == Some(id@),
            None => first_request_id(scope_request_ids(scope@)) is None,
        },
{
    let ghost ids = scope_request_ids(scope@);
    let mut i: usize = 0;
    assert(ids.skip(0) =~= ids);
    while i < scope.len()
        invariant
            i <= scope@.len(),
            ids == scope_request_ids(scope@),
            first_request_id(ids) == first_request_id(ids.skip(i as int)),
        decreases scope@.len() - i,
    {
        assert(ids.skip(i as int).drop_first() =~= ids.skip(i + 1));
        assert(ids.skip(i as int)[0] == ids[i as int]);
        match &scope[i].request_id {
            Some(id) => {
                return Some(id.clone());
            },
            None => {},
        }
        i = i + 1;
    }
    assert(ids.skip(i as int) =~= Seq::<Option<Seq<char>>>::empty());
    None
}

/// A visitor's message and fields after recording `value` for `name`.
pub open spec fn visit_field(
    state: (Seq<char>, Map<Seq<char>, FieldView>),
    name: Seq<char>,
    value: FieldView,
) -> (Seq<char>, Map<Seq<char>, FieldView>) {
    if name == MESSAGE_FIELD@ {
        (value_text(value), state.1)
    } else {
        (state.0, state.1.insert(name, value))
    }
}

/// A new visitor's message and fields after recording each entry of
/// `inserts` in order.
pub open spec fn visit_fields(inserts: Seq<(Seq<char>, FieldView)>) -> (Seq<char>, Map<Seq<char>, FieldView>)
    decreases inserts.len(),
{
    if inserts.len() == 0 {
        (Seq::empty(), Map::empty())
    } else {
        visit_field(visit_fields(inserts.drop_last()), inserts.last().0, inserts.last().1)
    }
}

/// The text of the last `message` of `inserts`; empty when there is none.
pub open spec fn last_message(inserts: Seq<(Seq<char>, FieldView)>) -> Seq<char>
    decreases inserts.len(),
{
    if inserts.len() == 0 {
        Seq::empty()
    } else if inserts.last().0 == MESSAGE_FIELD@ {
        value_text(inserts.last().1)
    } else {
        last_message(inserts.drop_last())
    }
}

/// The entry is not a `message`.
pub open spec fn not_message(entry: (Seq<char>, FieldView)) -> bool {
    entry.0 != MESSAGE_FIELD@
}

/// After any sequence of records, a visitor's fields hold no `message`, its
/// message is the text of the last `message` recorded (empty when there is
/// none), and each other name holds the value recorded last for it.
pub proof fn lemma_visit_fields(inserts: Seq<(Seq<char>, FieldView)>)
    ensures
        !visit_fields(inserts).1.contains_key(MESSAGE_FIELD@),
        visit_fields(inserts).0 == last_message(inserts),
        visit_fields(inserts).1 == entries_map(inserts.filter(|e: (Seq<char>, FieldView)| not_message(e))),
    decreases inserts.len(),
{
    broadcast use vstd::seq_lib::group_filter_ensures;

    let keep = |e: (Seq<char>, FieldView)| not_message(e);
    if inserts.len() == 0 {
        assert(inserts.filter(keep) =~= Seq::<(Seq<char>, FieldView)>::empty());
    } else {
        let rest = inserts.drop_last();
        let last = inserts.last();
        lemma_visit_fields(rest);
        assert(rest.push(last) =~= inserts);
        rest.lemma_filter_push(last, keep);
        if !not_message(last) {
            assert(inserts.filter(keep) == rest.filter(keep));
        } else {
            assert(inserts.filter(keep) == rest.filter(keep).push(last));
            assert(inserts.filter(keep).drop_last() =~= rest.filter(keep));
        }
    }
}

/// Splits the fields of one event into its message and its other fields.
#[derive(Debug, PartialEq)]
pub struct EventVisitor {
    /// The message: from the `message` field, the last one recorded.
    pub message: String,
    /// Every other field.
    pub fields: Fields,
}

impl EventVisitor {
    /// No message and no fields.
    pub fn new() -> (visitor: Self)
        ensures
            visitor.message@ == Seq::<char>::empty(),
            visitor.fields@ == Map::<Seq<char>, FieldView>::empty(),
            (visitor.message@, visitor.fields@) == visit_fields(Seq::empty()),
    {
        EventVisitor { message: String::new(), fields: Fields::new() }
    }

    /// Records a field: a `message` replaces the message (a string as it is,
    /// any other value as its JSON text); any other field is recorded among
    /// the fields, replacing an earlier value of its name.
    pub fn insert(&mut self, name: &str, value: FieldValue)
        ensures
            name@ == MESSAGE_FIELD@ ==> final(self).message@ == value_text(value@),
            name@ == MESSAGE_FIELD@ ==> final(self).fields@ == old(self).fields@,
            name@ != MESSAGE_FIELD@ ==> final(self).message@ == old(self).message@,
            name@ != MESSAGE_FIELD@ ==> final(self).fields@ == old(self).fields@.insert(name@, value@),
            !old(self).fields@.contains_key(MESSAGE_FIELD@) ==> !final(self).fields@.contains_key(
                MESSAGE_FIELD@,
            ),
            (final(self).message@, final(self).fields@) == visit_field(
                (old(self).message@, old(self).fields@),
                name@,
                value@,
            ),
    {
        if name.to_owned() == MESSAGE_FIELD.to_owned() {
            self.message = value.to_text();
        } else {
            self.fields.insert(name, value);
        }
    }

    /// The message, and the other fields as the payload: none when there is
    /// no other field.
    pub fn into_parts(self) -> (parts: (String, Option<Fields>))
        ensures
            parts.0@ == self.message@,
            parts.1 is None <==> self.fields@ == Map::<Seq<char>, FieldView>::empty(),
            parts.1 matches Some(payload) ==> payload@ == self.fields@,
    {
        let EventVisitor { message, fields } = self;
        if fields.is_empty() {
            (message, None)
        } else {
            (message, Some(fields))
        }
    }
}

/// Turns each event into one trace row of a service.
pub struct BqTraceLayer {
    service_name: String,
}

impl BqTraceLayer {
    /// The service that the rows name.
    pub closed spec fn spec_service_name(&self) -> Seq<char> {
        self.service_name@
    }

    /// A layer whose rows name the service `service_name`.
    pub fn new(service_name: &str) -> (layer: Self)
        ensures
            layer.spec_service_name() == service_name@,
    {
        BqTraceLayer { service_name: service_name.to_owned() }
    }

    /// The service that the rows name.
    pub fn service_name(&self) -> (name: &str)
        ensures
            name@ == self.spec_service_name(),
    {
        self.service_name.as_str()
    }
}

} // verus!
