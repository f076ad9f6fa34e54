//! A Datadog provider whose tags are kept verbatim, without validation.

use vstd::prelude::*;
use vstd::string::StringExecFns;
use crate::providers::datadog::tags::{append_tag, key_value_tag};

verus! {

/// The text of `tags` after pushing each `(key, value)` pair of `pairs` in order.
pub open spec fn push_pairs(text: Seq<char>, pairs: Seq<(Seq<char>, Seq<char>)>) -> Seq<char>
    decreases pairs.len(),
{
    if pairs.len() == 0 {
        text
    } else {
        push_pairs(
            append_tag(text, key_value_tag(pairs[0].0, pairs[0].1)),
            pairs.drop_first(),
        )
    }
}

/// Pushing no pair leaves the text as it is, and pushing one pair more
/// appends its `key:value` tag to what the earlier pairs gave: every pair is
/// pushed, in order.
pub proof fn lemma_push_pairs(
    text: Seq<char>,
    pairs: Seq<(Seq<char>, Seq<char>)>,
    pair: (Seq<char>, Seq<char>),
)
    ensures
        push_pairs(text, Seq::empty()) == text,
        push_pairs(text, pairs.push(pair)) == append_tag(
            push_pairs(text, pairs),
            key_value_tag(pair.0, pair.1),
        ),
    decreases pairs.len(),
{
    if pairs.len() == 0 {
        assert(pairs.push(pair).drop_first() =~= Seq::<(Seq<char>, Seq<char>)>::empty());
        assert(pairs.push(pair)[0] == pair);
        assert(pairs =~= Seq::<(Seq<char>, Seq<char>)>::empty());
        let once = append_tag(text, key_value_tag(pair.0, pair.1));
        assert(push_pairs(once, Seq::empty()) == once);
        assert(push_pairs(text, pairs.push(pair)) == push_pairs(once, pairs.push(pair).drop_first()));
    } else {
        let next = append_tag(text, key_value_tag(pairs[0].0, pairs[0].1));
        lemma_push_pairs(next, pairs.drop_first(), pair);
        assert(pairs.push(pair).drop_first() =~= pairs.drop_first().push(pair));
        assert(pairs.push(pair)[0] == pairs[0]);
        assert(push_pairs(text, pairs.push(pair)) == push_pairs(next, pairs.push(pair).drop_first()));
        assert(push_pairs(text, pairs) == push_pairs(next, pairs.drop_first()));
    }
}

/// A comma-separated collection of Datadog tags.
///
/// Datadog recommends `key:value` tags. Keys and values are kept verbatim;
/// callers should follow Datadog's tag naming requirements.
#[derive(Debug, PartialEq, Eq)]
pub struct Tags(String);

impl View for Tags {
    type V = Seq<char>;

    /// The encoded, comma-separated text.
    closed spec fn view(&self) -> Seq<char> {
        self.0@
    }
}

impl Tags {
    /// An empty collection.
    pub fn new() -> (tags: Self)
        ensures
            tags@ == Seq::<char>::empty(),
    {
        Tags(String::new())
    }

    /// Appends a `key:value` tag.
    pub fn push(&mut self, key: &str, value: &str)
        ensures
            final(self)@ == append_tag(old(self)@, key_value_tag(key@, value@)),
    {
        self.push_separator();
        self.0.append(key);
        self.0.append(":");
        self.0.append(value);
        proof {
            reveal_strlit(":");
            assert(self@ =~= append_tag(old(self)@, key_value_tag(key@, value@)));
        }
    }

    /// Appends a tag without a value.
    pub fn push_bare(&mut self, tag: &str)
        ensures
            final(self)@ == append_tag(old(self)@, tag@),
    {
        self.push_separator();
        self.0.append(tag);
        proof {
            assert(self@ =~= append_tag(old(self)@, tag@));
        }
    }

    /// The collection with a `key:value` tag appended, as by `push`.
    pub fn with(self, key: &str, value: &str) -> (tags: Self)
        ensures
            tags@ == append_tag(self@, key_value_tag(key@, value@)),
    {
        let mut tags = self;
        tags.push(key, value);
        tags
    }

    /// The collection with a tag without a value appended, as by `push_bare`.
    pub fn with_bare(self, tag: &str) -> (tags: Self)
        ensures
            tags@ == append_tag(self@, tag@),
    {
        let mut tags = self;
        tags.push_bare(tag);
        tags
    }

    /// The encoded text.
    pub fn as_str(&self) -> (s: &str)
        ensures
            s@ == self@,
    {
        self.0.as_str()
    }

    /// A collection holding the `key:value` tags of `pairs`, in order.
    pub fn from_pairs(pairs: &[(&str, &str)]) -> (tags: Self)
        ensures
            tags@ == push_pairs(
                Seq::empty(),
                pairs@.map_values(|p: (&str, &str)| (p.0@, p.1@)),
            ),
    {
        let ghost all = pairs@.map_values(|p: (&str, &str)| (p.0@, p.1@));
        let mut tags = Tags::new();
        let mut i: usize = 0;
        assert(all.skip(0) =~= all);
        while i < pairs.len()
            invariant
                i <= pairs.len(),
                all == pairs@.map_values(|p: (&str, &str)| (p.0@, p.1@)),
                push_pairs(Seq::empty(), all) == push_pairs(tags@, all.skip(i as int)),
            decreases pairs.len() - i,
        {
            let (key, value) = pairs[i];
            assert(all.skip(i as int).drop_first() =~= all.skip(i + 1));
            assert(all.skip(i as int)[0] == (key@, value@));
            tags.push(key, value);
            i = i + 1;
        }
        assert(all.skip(i as int) =~= Seq::<(Seq<char>, Seq<char>)>::empty());
        tags
    }

    /// Appends a comma unless the collection is empty.
    fn push_separator(&mut self)
        ensures
            final(self)@ == (if old(self)@.len() == 0 {
                Seq::<char>::empty()
            } else {
                old(self)@ + seq![',']
            }),
    {
        if !self.0.as_str().is_empty() {
            self.0.append(",");
            proof {
                reveal_strlit(",");
            }
        }
    }
}

impl Clone for Tags {
    /// A collection with the same text.
    fn clone(&self) -> (tags: Self)
        ensures
            tags@ == self@,
    {
        Tags(self.0.clone())
    }
}

impl Default for Tags {
    /// An empty collection.
    fn default() -> (tags: Self)
        ensures
            tags@ == Seq::<char>::empty(),
    {
        Tags::new()
    }
}

/// Writes structured events to a Datadog logging endpoint, with tags kept
/// verbatim.
pub struct TraceSink<E> {
    endpoint: E,
    source: String,
    tags: Tags,
    service: String,
}

impl<E> TraceSink<E> {
    /// The endpoint that receives the records.
    pub closed spec fn spec_endpoint(&self) -> E {
        self.endpoint
    }

    /// The value of Datadog's reserved `ddsource` attribute.
    pub closed spec fn spec_source(&self) -> Seq<char> {
        self.source@
    }

    /// The tags of every record.
    pub closed spec fn spec_tags(&self) -> Seq<char> {
        self.tags@
    }

    /// The value of Datadog's reserved `service` attribute.
    pub closed spec fn spec_service(&self) -> Seq<char> {
        self.service@
    }

    /// A sink writing to `endpoint` for the given service, with source
    /// `fastly` and no tags.
    pub fn new(endpoint: E, service: &str) -> (sink: Self)
        ensures
            sink.spec_endpoint() == endpoint,
            sink.spec_source() == "fastly"@,
            sink.spec_tags() == Seq::<char>::empty(),
            sink.spec_service() == service@,
    {
        TraceSink {
            endpoint,
            source: String::from_str("fastly"),
            tags: Tags::new(),
            service: service.to_owned(),
        }
    }

    /// The sink with another value of the `ddsource` attribute.
    pub fn with_source(self, source: &str) -> (sink: Self)
        ensures
            sink.spec_endpoint() == self.spec_endpoint(),
            sink.spec_source() == source@,
            sink.spec_tags() == self.spec_tags(),
            sink.spec_service() == self.spec_service(),
    {
        TraceSink { source: source.to_owned(), ..self }
    }

    /// The sink with other tags.
    pub fn with_tags(self, tags: Tags) -> (sink: Self)
        ensures
            sink.spec_endpoint() == self.spec_endpoint(),
            sink.spec_source() == self.spec_source(),
            sink.spec_tags() == tags@,
            sink.spec_service() == self.spec_service(),
    {
        TraceSink { tags, ..self }
    }

    /// The endpoint that receives the records.
    pub fn endpoint(&self) -> (endpoint: &E)
        ensures
            *endpoint == self.spec_endpoint(),
    {
        &self.endpoint
    }

    /// The value of the `ddsource` attribute.
    pub fn source(&self) -> (source: &str)
        ensures
            source@ == self.spec_source(),
    {
        self.source.as_str()
    }

    /// The tags of every record.
    pub fn tags(&self) -> (tags: &Tags)
        ensures
            tags@ == self.spec_tags(),
    {
        &self.tags
    }

    /// The value of the `service` attribute.
    pub fn service(&self) -> (service: &str)
        ensures
            service@ == self.spec_service(),
    {
        self.service.as_str()
    }
}

} // verus!
