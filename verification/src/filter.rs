//! Filters that pick logs by their topics.

use vstd::prelude::*;
use crate::encoder::{encode, encode_seq};
use crate::errors::Error;
use crate::event::{event_kinds, kinds_where, Event};
use crate::param_type::ParamType;
use crate::signature::{keccak256, keccak256_of, signature_hash};
use crate::token::{has_shape, values_of, Token, Value};

verus! {

/// What a filter asks of one topic.
#[derive(Debug, PartialEq, Eq)]
pub enum Topic<T> {
    /// Nothing: any topic will do.
    Any,
    /// That it is one of these.
    OneOf(Vec<T>),
    /// That it is this one.
    This(T),
}

/// What a [`Topic`] asks, as mathematics.
pub enum Choice<T> {
    Any,
    OneOf(Seq<T>),
    This(T),
}

/// What a filter asks of the indexed parameters of an event, by their values:
/// of the first, the second and the third.
#[derive(Debug, PartialEq, Eq)]
pub struct RawTopicFilter {
    pub topic0: Topic<Token>,
    pub topic1: Topic<Token>,
    pub topic2: Topic<Token>,
}

/// What a filter asks of the four topics of a log.
#[derive(Debug, PartialEq, Eq)]
pub struct TopicFilter {
    pub topic0: Topic<[u8; 32]>,
    pub topic1: Topic<[u8; 32]>,
    pub topic2: Topic<[u8; 32]>,
    pub topic3: Topic<[u8; 32]>,
}

impl<T> Default for Topic<T> {
    fn default() -> (r: Topic<T>)
        ensures
            r == Topic::<T>::Any,
    {
        Topic::Any
    }
}

impl Default for RawTopicFilter {
    fn default() -> (r: RawTopicFilter)
        ensures
            r.topic0 == Topic::<Token>::Any,
            r.topic1 == Topic::<Token>::Any,
            r.topic2 == Topic::<Token>::Any,
    {
        RawTopicFilter { topic0: Topic::Any, topic1: Topic::Any, topic2: Topic::Any }
    }
}

impl Default for TopicFilter {
    fn default() -> (r: TopicFilter)
        ensures
            r.topic0 == Topic::<[u8; 32]>::Any,
            r.topic1 == Topic::<[u8; 32]>::Any,
            r.topic2 == Topic::<[u8; 32]>::Any,
            r.topic3 == Topic::<[u8; 32]>::Any,
    {
        TopicFilter {
            topic0: Topic::Any,
            topic1: Topic::Any,
            topic2: Topic::Any,
            topic3: Topic::Any,
        }
    }
}

/// What a filter by values asks.
pub open spec fn chosen_values(topic: Topic<Token>) -> Choice<Value> {
    match topic {
        Topic::Any => Choice::Any,
        Topic::OneOf(tokens) => Choice::OneOf(values_of(tokens@)),
        Topic::This(token) => Choice::This(token@),
    }
}

/// What a filter by topics asks.
pub open spec fn chosen_words(topic: Topic<[u8; 32]>) -> Choice<Seq<u8>> {
    match topic {
        Topic::Any => Choice::Any,
        Topic::OneOf(words) => Choice::OneOf(Seq::new(words@.len(), |i: int| words@[i]@)),
        Topic::This(word) => Choice::This(word@),
    }
}

/// The topic that stands for a value: its encoding where that is one word,
/// else the hash of its encoding.
pub open spec fn topic_of(v: Value) -> Seq<u8> {
    let encoded = encode_seq(seq![v]);
    if encoded.len() == 32 {
        encoded
    } else {
        keccak256_of(encoded)
    }
}

/// What is asked of a topic, from what is asked of the value of the parameter
/// of shape `kind` that the topic holds. To ask for a value is refused as
/// `InvalidData` where there is no such parameter or the value has not its
/// shape.
pub open spec fn converted(choice: Choice<Value>, kind: Option<ParamType>) -> Result<
    Choice<Seq<u8>>,
    Error,
> {
    match choice {
        Choice::Any => Ok(Choice::Any),
        Choice::This(v) => match kind {
            Some(t) => if has_shape(v, t) {
                Ok(Choice::This(topic_of(v)))
            } else {
                Err(Error::InvalidData)
            },
            None => Err(Error::InvalidData),
        },
        Choice::OneOf(vs) => match kind {
            Some(t) => if forall|i: int| 0 <= i < vs.len() ==> has_shape(#[trigger] vs[i], t) {
                Ok(Choice::OneOf(Seq::new(vs.len(), |i: int| topic_of(vs[i]))))
            } else {
                Err(Error::InvalidData)
            },
            None => Err(Error::InvalidData),
        },
    }
}

/// The `i`-th shape, if there are that many.
pub open spec fn kind_at(kinds: Seq<ParamType>, i: int) -> Option<ParamType> {
    if 0 <= i < kinds.len() {
        Some(kinds[i])
    } else {
        None
    }
}

/// The filter on a log's four topics that an event makes of what is asked of
/// its first three indexed parameters. Unless the event is anonymous, the first
/// topic must be the hash of the event's signature and the parameters follow
/// it; else they stand first and the fourth topic is free.
pub open spec fn filter_of(
    name: Seq<char>,
    inputs: Seq<crate::event::EventParam>,
    anonymous: bool,
    raw0: Choice<Value>,
    raw1: Choice<Value>,
    raw2: Choice<Value>,
) -> Result<(Choice<Seq<u8>>, Choice<Seq<u8>>, Choice<Seq<u8>>, Choice<Seq<u8>>), Error> {
    let kinds = kinds_where(inputs, true, inputs.len());
    let c0 = converted(raw0, kind_at(kinds, 0));
    let c1 = converted(raw1, kind_at(kinds, 1));
    let c2 = converted(raw2, kind_at(kinds, 2));
    if c0 is Err || c1 is Err || c2 is Err {
        Err(Error::InvalidData)
    } else if anonymous {
        Ok((c0->Ok_0, c1->Ok_0, c2->Ok_0, Choice::Any))
    } else {
        Ok((Choice::This(signature_hash(name, event_kinds(inputs))), c0->Ok_0, c1->Ok_0, c2->Ok_0))
    }
}

/// What a filter asks of the four topics.
pub open spec fn filter_view(filter: TopicFilter) -> (
    Choice<Seq<u8>>,
    Choice<Seq<u8>>,
    Choice<Seq<u8>>,
    Choice<Seq<u8>>,
) {
    (
        chosen_words(filter.topic0),
        chosen_words(filter.topic1),
        chosen_words(filter.topic2),
        chosen_words(filter.topic3),
    )
}

/// The topic that stands for a value of the given shape.
pub fn convert_token(token: &Token, kind: &ParamType) -> (r: Result<[u8; 32], Error>)
    ensures
        match r {
            Ok(word) => has_shape(token@, *kind) && word@ == topic_of(token@),
            Err(e) => e == Error::InvalidData && !has_shape(token@, *kind),
        },
{
    if !token.type_check(kind) {
        return Err(Error::InvalidData);
    }
    let mut one: Vec<Token> = Vec::new();
    one.push(token.duplicate());
    assert(values_of(one@) =~= seq![token@]);
    let encoded = encode(one.as_slice());
    if encoded.len() == 32 {
        let mut word: [u8; 32] = [0u8; 32];
        let mut i: usize = 0;
        while i < 32
            invariant
                i <= 32,
                encoded@.len() == 32,
                forall|j: int| 0 <= j < i ==> #[trigger] word@[j] == encoded@[j],
            decreases 32 - i,
        {
            word[i] = encoded[i];
            i += 1;
        }
        assert(word@ =~= encoded@);
        Ok(word)
    } else {
        Ok(keccak256(encoded.as_slice()))
    }
}

/// The topics that stand for values of the given shape; `InvalidData` where one
/// of them has not that shape.
pub fn convert_tokens(tokens: &Vec<Token>, kind: &ParamType) -> (r: Result<Vec<[u8; 32]>, Error>)
    ensures
        match r {
            Ok(words) => words@.len() == tokens@.len() && forall|j: int|
                0 <= j < tokens@.len() ==> has_shape(#[trigger] values_of(tokens@)[j], *kind)
                    && words@[j]@ == topic_of(values_of(tokens@)[j]),
            Err(e) => e == Error::InvalidData && exists|j: int|
                0 <= j < tokens@.len() && !has_shape(#[trigger] values_of(tokens@)[j], *kind),
        },
{
    let ghost vs = values_of(tokens@);
    let mut words: Vec<[u8; 32]> = Vec::new();
    let mut i: usize = 0;
    while i < tokens.len()
        invariant
            i <= tokens@.len(),
            vs == values_of(tokens@),
            words@.len() == i,
            forall|j: int|
                0 <= j < i ==> has_shape(#[trigger] vs[j], *kind) && words@[j]@ == topic_of(vs[j]),
        decreases tokens@.len() - i,
    {
        match convert_token(&tokens[i], kind) {
            Ok(word) => {
                words.push(word);
            },
            Err(e) => {
                assert(!has_shape(vs[i as int], *kind));
                return Err(e);
            },
        }
        i += 1;
    }
    Ok(words)
}

/// What is asked of a topic, from what is asked of the value of the parameter
/// that it holds.
pub fn convert_topic(topic: Topic<Token>, kind: Option<&ParamType>) -> (r: Result<
    Topic<[u8; 32]>,
    Error,
>)
    ensures
        match r {
            Ok(words) => converted(
                chosen_values(topic),
                match kind {
                    Some(t) => Some(*t),
                    None => None,
                },
            ) == Ok::<Choice<Seq<u8>>, Error>(chosen_words(words)),
            Err(e) => converted(
                chosen_values(topic),
                match kind {
                    Some(t) => Some(*t),
                    None => None,
                },
            ) == Err::<Choice<Seq<u8>>, Error>(e),
        },
{
    match topic {
        Topic::Any => Ok(Topic::Any),
        Topic::This(token) => match kind {
            None => Err(Error::InvalidData),
            Some(t) => match convert_token(&token, t) {
                Ok(word) => Ok(Topic::This(word)),
                Err(e) => Err(e),
            },
        },
        Topic::OneOf(tokens) => match kind {
            None => Err(Error::InvalidData),
            Some(t) => match convert_tokens(&tokens, t) {
                Ok(words) => {
                    assert(Seq::new(words@.len(), |i: int| words@[i]@) =~= Seq::new(
                        values_of(tokens@).len(),
                        |i: int| topic_of(values_of(tokens@)[i]),
                    ));
                    Ok(Topic::OneOf(words))
                },
                Err(e) => Err(e),
            },
        },
    }
}

impl Event {
    /// The filter that picks the logs of this event in which the first three
    /// indexed parameters are as asked. What is asked of a parameter that the
    /// event has not, or by a value that has not the parameter's shape, is
    /// refused as `InvalidData`.
    pub fn create_filter(&self, raw: RawTopicFilter) -> (r: Result<TopicFilter, Error>)
        ensures
            match r {
                Ok(filter) => filter_of(
                    self.name@,
                    self.inputs@,
                    self.anonymous,
                    chosen_values(raw.topic0),
                    chosen_values(raw.topic1),
                    chosen_values(raw.topic2),
                ) == Ok::<
                    (Choice<Seq<u8>>, Choice<Seq<u8>>, Choice<Seq<u8>>, Choice<Seq<u8>>),
                    Error,
                >(filter_view(filter)),
                Err(e) => filter_of(
                    self.name@,
                    self.inputs@,
                    self.anonymous,
                    chosen_values(raw.topic0),
                    chosen_values(raw.topic1),
                    chosen_values(raw.topic2),
                ) == Err::<
                    (Choice<Seq<u8>>, Choice<Seq<u8>>, Choice<Seq<u8>>, Choice<Seq<u8>>),
                    Error,
                >(e),
            },
    {
        let kinds = self.kinds(true);
        let count: usize = kinds.len();
        let k0: Option<&ParamType> = if 0 < count {
            Some(&kinds[0])
        } else {
            None
        };
        let k1: Option<&ParamType> = if 1 < count {
            Some(&kinds[1])
        } else {
            None
        };
        let k2: Option<&ParamType> = if 2 < count {
            Some(&kinds[2])
        } else {
            None
        };
        let RawTopicFilter { topic0, topic1, topic2 } = raw;
        let c0 = match convert_topic(topic0, k0) {
            Ok(c) => c,
            Err(e) => {
                return Err(e);
            },
        };
        let c1 = match convert_topic(topic1, k1) {
            Ok(c) => c,
            Err(e) => {
                return Err(e);
            },
        };
        let c2 = match convert_topic(topic2, k2) {
            Ok(c) => c,
            Err(e) => {
                return Err(e);
            },
        };
        if self.anonymous {
            Ok(TopicFilter { topic0: c0, topic1: c1, topic2: c2, topic3: Topic::Any })
        } else {
            Ok(
                TopicFilter {
                    topic0: Topic::This(self.signature()),
                    topic1: c0,
                    topic2: c1,
                    topic3: c2,
                },
            )
        }
    }
}

impl crate::contract::Contract {
    /// The filter that picks the logs of the first event of the given name:
    /// `InvalidName` where there is none, else as [`Event::create_filter`]
    /// gives it.
    pub fn create_filter(&self, name: &str, raw: RawTopicFilter) -> (r: Result<
        TopicFilter,
        Error,
    >)
        ensures
            match crate::contract::place_of(
                crate::contract::event_names(self.events@),
                name@,
                0,
            ) {
                None => r == Err::<TopicFilter, Error>(Error::InvalidName),
                Some(i) => {
                    let ev = self.events@[i as int];
                    let asked = filter_of(
                        ev.name@,
                        ev.inputs@,
                        ev.anonymous,
                        chosen_values(raw.topic0),
                        chosen_values(raw.topic1),
                        chosen_values(raw.topic2),
                    );
                    match r {
                        Ok(filter) => asked == Ok::<
                            (Choice<Seq<u8>>, Choice<Seq<u8>>, Choice<Seq<u8>>, Choice<Seq<u8>>),
                            Error,
                        >(filter_view(filter)),
                        Err(e) => asked == Err::<
                            (Choice<Seq<u8>>, Choice<Seq<u8>>, Choice<Seq<u8>>, Choice<Seq<u8>>),
                            Error,
                        >(e),
                    }
                },
            },
    {
        match self.event(name) {
            Ok(ev) => ev.create_filter(raw),
            Err(e) => Err(e),
        }
    }
}

} // verus!
