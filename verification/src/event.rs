//! Events of a contract: reading the logs that they leave.

use vstd::prelude::*;
use crate::decoder::{
    decode, decode_one, decode_param, decode_seq, lemma_decode_items_len, tokens_outcome,
};
use crate::errors::Error;
use crate::log::{entries_of, words_of, Log, LogParam, LogValue, Logged, RawLog};
use crate::param_type::ParamType;
use crate::signature::{long_signature, signature_hash};
use crate::token::{values_of, Token, Value};

verus! {

/// A declared parameter of an event.
#[derive(Debug, PartialEq, Eq)]
pub struct EventParam {
    /// Its name.
    pub name: String,
    /// Its shape.
    pub kind: ParamType,
    /// Whether a log keeps it in a topic; if not, it is in the log's data.
    pub indexed: bool,
}

/// An event of a contract.
#[derive(Debug, PartialEq, Eq)]
pub struct Event {
    /// Its name.
    pub name: String,
    /// Its parameters.
    pub inputs: Vec<EventParam>,
    /// Whether its logs leave out the topic that holds the signature's hash.
    pub anonymous: bool,
}

/// The shapes of the parameters, in order.
pub open spec fn event_kinds(inputs: Seq<EventParam>) -> Seq<ParamType> {
    Seq::new(inputs.len(), |i: int| inputs[i].kind)
}

/// The shapes of those of the first `n` parameters that are indexed (or of
/// those that are not), in order.
pub open spec fn kinds_where(inputs: Seq<EventParam>, indexed: bool, n: nat) -> Seq<ParamType>
    decreases n,
{
    if n == 0 || n > inputs.len() {
        Seq::empty()
    } else if inputs[n - 1].indexed == indexed {
        kinds_where(inputs, indexed, (n - 1) as nat).push(inputs[n - 1].kind)
    } else {
        kinds_where(inputs, indexed, (n - 1) as nat)
    }
}

/// What a topic tells of an indexed parameter of shape `t`: the value where
/// the shape is static, read from the topic as from a head; else only the
/// value's hash, which is the topic itself.
pub open spec fn topic_value(t: ParamType, topic: Seq<u8>) -> Result<Logged, Error> {
    if t.dynamic() {
        Ok(Logged::Hashed(topic))
    } else {
        match decode_param(t, topic, 0) {
            Ok(v) => Ok(Logged::Value(v)),
            Err(e) => Err(e),
        }
    }
}

/// What the first `k` topics tell of parameters of the shapes `kinds`; the
/// first failure, if one of them fails.
pub open spec fn topic_values(kinds: Seq<ParamType>, topics: Seq<Seq<u8>>, k: nat) -> Result<
    Seq<Logged>,
    Error,
>
    decreases k,
{
    if k == 0 || k > kinds.len() || k > topics.len() {
        Ok(Seq::empty())
    } else {
        match topic_values(kinds, topics, (k - 1) as nat) {
            Err(e) => Err(e),
            Ok(before) => match topic_value(kinds[k - 1], topics[k - 1]) {
                Err(e) => Err(e),
                Ok(v) => Ok(before.push(v)),
            },
        }
    }
}

/// What a log tells of the `i`-th parameter, given what its topics and its
/// data hold.
pub open spec fn log_entry(
    inputs: Seq<EventParam>,
    from_topics: Seq<Logged>,
    from_data: Seq<Value>,
    i: int,
) -> (Seq<char>, Logged) {
    (
        inputs[i].name@,
        if inputs[i].indexed {
            from_topics[kinds_where(inputs, true, i as nat).len() as int]
        } else {
            Logged::Value(from_data[kinds_where(inputs, false, i as nat).len() as int])
        },
    )
}

/// What a log with the given topics and data tells of the parameters of an
/// event, in the order of their declaration.
///
/// Unless the event is anonymous the first topic is the signature's and is
/// passed over. The topics after it belong to the indexed parameters in order,
/// and there must be exactly one for each. The data hold the other parameters,
/// encoded in order.
pub open spec fn parsed_log(
    inputs: Seq<EventParam>,
    anonymous: bool,
    topics: Seq<Seq<u8>>,
    data: Seq<u8>,
) -> Result<Seq<(Seq<char>, Logged)>, Error> {
    let n = inputs.len();
    let skip: int = if anonymous {
        0
    } else {
        1
    };
    let kinds = kinds_where(inputs, true, n);
    if topics.len() != skip + kinds.len() {
        Err(Error::InvalidData)
    } else {
        match topic_values(kinds, topics.skip(skip), kinds.len()) {
            Err(e) => Err(e),
            Ok(from_topics) => match decode_seq(kinds_where(inputs, false, n), data) {
                Err(e) => Err(e),
                Ok(from_data) => Ok(
                    Seq::new(n, |i: int| log_entry(inputs, from_topics, from_data, i)),
                ),
            },
        }
    }
}

/// A log with fewer topics than the event has indexed parameters, and one more
/// unless the event is anonymous, is refused as invalid.
pub proof fn lemma_too_few_topics_is_invalid(
    inputs: Seq<EventParam>,
    anonymous: bool,
    topics: Seq<Seq<u8>>,
    data: Seq<u8>,
)
    requires
        topics.len() < kinds_where(inputs, true, inputs.len()).len() + if anonymous {
            0int
        } else {
            1int
        },
    ensures
        parsed_log(inputs, anonymous, topics, data) == Err::<Seq<(Seq<char>, Logged)>, Error>(
            Error::InvalidData,
        ),
{
}

/// What each of the values holds.
pub open spec fn logged_of(values: Seq<LogValue>) -> Seq<Logged> {
    Seq::new(values.len(), |i: int| values[i]@)
}

/// Topics that were read without failure tell of as many parameters as were
/// asked for.
pub proof fn lemma_topic_values_len(kinds: Seq<ParamType>, topics: Seq<Seq<u8>>, k: nat)
    requires
        k <= kinds.len(),
        k <= topics.len(),
    ensures
        topic_values(kinds, topics, k) is Ok ==> topic_values(kinds, topics, k)->Ok_0.len() == k,
    decreases k,
{
    if k > 0 {
        lemma_topic_values_len(kinds, topics, (k - 1) as nat);
    }
}

/// Of more parameters at least as many are indexed (or are not).
pub proof fn lemma_kinds_where_grows(inputs: Seq<EventParam>, indexed: bool, k: nat, more: nat)
    requires
        k <= more <= inputs.len(),
    ensures
        kinds_where(inputs, indexed, k).len() <= kinds_where(inputs, indexed, more).len() <= more,
    decreases more,
{
    if more > 0 {
        if k < more {
            lemma_kinds_where_grows(inputs, indexed, k, (more - 1) as nat);
        } else {
            lemma_kinds_where_grows(inputs, indexed, (k - 1) as nat, (more - 1) as nat);
        }
    }
}

/// Once one topic has failed, the failure stands however many more are asked for.
pub proof fn lemma_topic_values_fails(
    kinds: Seq<ParamType>,
    topics: Seq<Seq<u8>>,
    k: nat,
    more: nat,
)
    requires
        k <= more <= kinds.len(),
        more <= topics.len(),
        topic_values(kinds, topics, k) is Err,
    ensures
        topic_values(kinds, topics, more) == topic_values(kinds, topics, k),
    decreases more,
{
    if k < more {
        lemma_topic_values_fails(kinds, topics, k, (more - 1) as nat);
    }
}

impl Event {
    /// The shapes of the parameters, in order.
    pub fn param_types(&self) -> (kinds: Vec<ParamType>)
        ensures
            kinds@ == event_kinds(self.inputs@),
    {
        let mut kinds: Vec<ParamType> = Vec::new();
        let mut i: usize = 0;
        while i < self.inputs.len()
            invariant
                i <= self.inputs@.len(),
                kinds@.len() == i,
                forall|j: int| 0 <= j < i ==> kinds@[j] == self.inputs@[j].kind,
            decreases self.inputs@.len() - i,
        {
            kinds.push(self.inputs[i].kind.clone());
            i += 1;
        }
        assert(kinds@ =~= event_kinds(self.inputs@));
        kinds
    }

    /// The shapes of the parameters that are indexed, or of those that are
    /// not, in order.
    pub fn kinds(&self, indexed: bool) -> (kinds: Vec<ParamType>)
        ensures
            kinds@ == kinds_where(self.inputs@, indexed, self.inputs@.len()),
    {
        let mut kinds: Vec<ParamType> = Vec::new();
        let mut i: usize = 0;
        while i < self.inputs.len()
            invariant
                i <= self.inputs@.len(),
                kinds@ == kinds_where(self.inputs@, indexed, i as nat),
            decreases self.inputs@.len() - i,
        {
            if self.inputs[i].indexed == indexed {
                kinds.push(self.inputs[i].kind.clone());
            }
            i += 1;
        }
        kinds
    }

    /// The hash of the canonical signature, which is the name and the shapes
    /// of all parameters. Unless the event is anonymous it is the first topic
    /// of the event's logs.
    pub fn signature(&self) -> (hash: [u8; 32])
        ensures
            hash@ == signature_hash(self.name@, event_kinds(self.inputs@)),
    {
        let kinds = self.param_types();
        long_signature(self.name.as_str(), kinds.as_slice())
    }

    /// Reads a log of this event: what it tells of each parameter, in the
    /// order of their declaration.
    ///
    /// Unless the event is anonymous the first topic is passed over. After it
    /// there must be exactly one topic for each indexed parameter, else the
    /// log is refused as `InvalidData`. An indexed parameter of a static shape
    /// is read from its topic; of one of a dynamic shape the topic holds only
    /// the hash, which is handed out as such. The other parameters are decoded
    /// from the data. Of several failures the first is returned, topics before
    /// data.
    pub fn parse_log(&self, log: RawLog) -> (r: Result<Log, Error>)
        ensures
            match r {
                Ok(parsed) => parsed_log(
                    self.inputs@,
                    self.anonymous,
                    words_of(log.topics@),
                    log.data@,
                ) == Ok::<Seq<(Seq<char>, Logged)>, Error>(entries_of(parsed.params@)),
                Err(e) => parsed_log(
                    self.inputs@,
                    self.anonymous,
                    words_of(log.topics@),
                    log.data@,
                ) == Err::<Seq<(Seq<char>, Logged)>, Error>(e),
            },
    {
        let n: usize = self.inputs.len();
        let skip: usize = if self.anonymous {
            0
        } else {
            1
        };
        let topic_kinds = self.kinds(true);
        let data_kinds = self.kinds(false);
        let count: usize = topic_kinds.len();
        let ghost inputs = self.inputs@;
        let ghost words = words_of(log.topics@);
        let ghost rest = words.skip(skip as int);
        let total: usize = log.topics.len();
        if total < skip || total - skip != count {
            return Err(Error::InvalidData);
        }
        let mut from_topics: Vec<LogValue> = Vec::new();
        let mut k: usize = 0;
        assert(logged_of(from_topics@) =~= Seq::empty());
        while k < count
            invariant
                k <= count == topic_kinds@.len(),
                log.topics@.len() == skip + count == total,
                skip == if self.anonymous { 0usize } else { 1usize },
                n == self.inputs@.len(),
                topic_kinds@ == kinds_where(self.inputs@, true, n as nat),
                rest == words_of(log.topics@).skip(skip as int),
                topic_values(topic_kinds@, rest, k as nat) == Ok::<Seq<Logged>, Error>(
                    logged_of(from_topics@),
                ),
            decreases count - k,
        {
            let ghost before = logged_of(from_topics@);
            let topic: &[u8; 32] = &log.topics[skip + k];
            assert(rest[k as int] == topic@);
            let value = if topic_kinds[k].is_dynamic() {
                LogValue::Hashed(*topic)
            } else {
                match decode_one(&topic_kinds[k], topic.as_slice(), 0) {
                    Ok(token) => LogValue::Value(token),
                    Err(e) => {
                        proof {
                            assert(topic_values(topic_kinds@, rest, (k + 1) as nat) == Err::<
                                Seq<Logged>,
                                Error,
                            >(e));
                            lemma_topic_values_fails(
                                topic_kinds@,
                                rest,
                                (k + 1) as nat,
                                count as nat,
                            );
                        }
                        return Err(e);
                    },
                }
            };
            from_topics.push(value);
            assert(logged_of(from_topics@) =~= before.push(value@));
            k += 1;
        }
        let from_data = match decode(data_kinds.as_slice(), log.data.as_slice()) {
            Ok(tokens) => tokens,
            Err(e) => {
                return Err(e);
            },
        };
        proof {
            lemma_decode_items_len(data_kinds@, log.data@, data_kinds@.len());
            lemma_topic_values_len(topic_kinds@, rest, count as nat);
        }
        let ghost told = logged_of(from_topics@);
        let ghost held = values_of(from_data@);
        let mut params: Vec<LogParam> = Vec::new();
        let mut ti: usize = 0;
        let mut di: usize = 0;
        let mut i: usize = 0;
        while i < n
            invariant
                i <= n == self.inputs@.len(),
                inputs == self.inputs@,
                told == logged_of(from_topics@),
                held == values_of(from_data@),
                from_topics@.len() == kinds_where(inputs, true, n as nat).len(),
                from_data@.len() == kinds_where(inputs, false, n as nat).len(),
                ti == kinds_where(inputs, true, i as nat).len(),
                di == kinds_where(inputs, false, i as nat).len(),
                params@.len() == i,
                forall|j: int| 0 <= j < i ==> (#[trigger] params@[j])@ == log_entry(
                    inputs,
                    told,
                    held,
                    j,
                ),
            decreases n - i,
        {
            proof {
                lemma_kinds_where_grows(inputs, true, (i + 1) as nat, n as nat);
                lemma_kinds_where_grows(inputs, false, (i + 1) as nat, n as nat);
            }
            let input = &self.inputs[i];
            let value = if input.indexed {
                let v = from_topics[ti].duplicate();
                ti += 1;
                v
            } else {
                let v = LogValue::Value(from_data[di].duplicate());
                di += 1;
                v
            };
            params.push(LogParam { name: input.name.clone(), value });
            i += 1;
        }
        assert(entries_of(params@) =~= Seq::new(
            n as nat,
            |i: int| log_entry(inputs, told, held, i),
        ));
        Ok(Log { params })
    }
}

impl Clone for EventParam {
    fn clone(&self) -> (r: EventParam)
        ensures
            r == *self,
    {
        EventParam { name: self.name.clone(), kind: self.kind.clone(), indexed: self.indexed }
    }
}

impl Clone for Event {
    fn clone(&self) -> (r: Event)
        ensures
            r.name == self.name,
            r.inputs@ == self.inputs@,
            r.anonymous == self.anonymous,
    {
        let mut inputs: Vec<EventParam> = Vec::new();
        let mut i: usize = 0;
        while i < self.inputs.len()
            invariant
                i <= self.inputs@.len(),
                inputs@.len() == i,
                forall|j: int| 0 <= j < i ==> inputs@[j] == self.inputs@[j],
            decreases self.inputs@.len() - i,
        {
            inputs.push(self.inputs[i].clone());
            i += 1;
        }
        assert(inputs@ =~= self.inputs@);
        Event { name: self.name.clone(), inputs, anonymous: self.anonymous }
    }
}

} // verus!
