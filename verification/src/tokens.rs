//! The provider-independent token estimate of a request, and the measured
//! count anchored to a provider's report: an estimate of what a request
//! costs, not what is billed.
use vstd::prelude::*;
use crate::context::{utf8_len, utf8_length};
use crate::text::str_eq;

verus! {

/// A JSON value, as the estimate reads it.
#[derive(Debug)]
pub enum Json {
    Null,
    Bool(bool),
    /// A number; its value does not matter to the estimate.
    Number,
    Text(String),
    Array(Vec<Json>),
    Object(Vec<Field>),
}

/// A member of a JSON object.
#[derive(Debug)]
pub struct Field {
    pub key: String,
    pub value: Json,
}

/// `n / 3`, rounded up.
pub open spec fn thirds(n: int) -> int {
    (n + 2) / 3
}

/// Replay metadata that duplicates visible content and holds opaque
/// ciphertext; it is not counted.
pub open spec fn replay_key(k: Seq<char>) -> bool {
    k == "_responses_reasoning"@ || k == "_responses_output"@
}

/// The value of the object's first `type` member.
pub open spec fn type_of(fields: Seq<Field>) -> Option<Json>
    decreases fields.len(),
{
    if fields.len() == 0 {
        None
    } else if fields[0].key@ == "type"@ {
        Some(fields[0].value)
    } else {
        type_of(fields.drop_first())
    }
}

/// An image part: an object whose `type` is the string `image_url`.
pub open spec fn image_part(fields: Seq<Field>) -> bool {
    type_of(fields) matches Some(Json::Text(t)) && t@ == "image_url"@
}

/// The estimated tokens of a value: strings a third of their bytes plus 2,
/// arrays 2 plus their items, image parts 4096, other objects 4 plus, per
/// counted member, a third of its key's bytes, its value and 2; anything
/// else 4.
pub open spec fn tokens(j: Json) -> int
    decreases j,
{
    match j {
        Json::Text(s) => thirds(utf8_len(s@) as int) + 2,
        Json::Array(items) => 2 + tokens_all(items@),
        Json::Object(fields) => if image_part(fields@) {
            4096
        } else {
            4 + field_tokens(fields@)
        },
        _ => 4,
    }
}

pub open spec fn tokens_all(items: Seq<Json>) -> int
    decreases items,
{
    if items.len() == 0 {
        0
    } else {
        tokens_all(items.drop_last()) + tokens(items.last())
    }
}

pub open spec fn field_tokens(fields: Seq<Field>) -> int
    decreases fields,
{
    if fields.len() == 0 {
        0
    } else {
        let f = fields.last();
        field_tokens(fields.drop_last()) + if replay_key(f.key@) {
            0
        } else {
            thirds(utf8_len(f.key@) as int) + tokens(f.value) + 2
        }
    }
}

proof fn lemma_tokens_nonneg(j: Json)
    ensures
        tokens(j) >= 2,
    decreases j,
{
    match j {
        Json::Array(items) => {
            lemma_tokens_all_nonneg(items@);
        },
        Json::Object(fields) => {
            lemma_field_tokens_nonneg(fields@);
        },
        _ => {},
    }
}

proof fn lemma_tokens_all_nonneg(items: Seq<Json>)
    ensures
        tokens_all(items) >= 0,
        forall|i: int| 0 <= i <= items.len() ==> tokens_all(#[trigger] items.take(i)) <= tokens_all(items),
    decreases items,
{
    if items.len() > 0 {
        lemma_tokens_all_nonneg(items.drop_last());
        lemma_tokens_nonneg(items.last());
        assert forall|i: int| 0 <= i <= items.len() implies tokens_all(#[trigger] items.take(i)) <= tokens_all(items) by {
            if i < items.len() {
                assert(items.take(i) =~= items.drop_last().take(i));
            } else {
                assert(items.take(i) =~= items);
            }
        }
    } else {
        assert(items.take(0) =~= items);
    }
}

proof fn lemma_field_tokens_nonneg(fields: Seq<Field>)
    ensures
        field_tokens(fields) >= 0,
        forall|i: int| 0 <= i <= fields.len() ==> field_tokens(#[trigger] fields.take(i)) <= field_tokens(fields),
    decreases fields,
{
    if fields.len() > 0 {
        lemma_field_tokens_nonneg(fields.drop_last());
        lemma_tokens_nonneg(fields.last().value);
        assert forall|i: int| 0 <= i <= fields.len() implies field_tokens(#[trigger] fields.take(i)) <= field_tokens(fields) by {
            if i < fields.len() {
                assert(fields.take(i) =~= fields.drop_last().take(i));
            } else {
                assert(fields.take(i) =~= fields);
            }
        }
    } else {
        assert(fields.take(0) =~= fields);
    }
}

fn is_image_part(fields: &Vec<Field>) -> (r: bool)
    ensures
        r == image_part(fields@),
{
    let mut i: usize = 0;
    proof {
        assert(fields@.skip(0) =~= fields@);
    }
    while i < fields.len()
        invariant
            i <= fields.len(),
            type_of(fields@) == type_of(fields@.skip(i as int)),
        decreases fields.len() - i,
    {
        proof {
            assert(fields@.skip(i as int)[0] == fields@[i as int]);
            assert(fields@.skip(i as int).drop_first() =~= fields@.skip(i + 1));
        }
        if str_eq(fields[i].key.as_str(), "type") {
            return match &fields[i].value {
                Json::Text(t) => str_eq(t.as_str(), "image_url"),
                _ => false,
            };
        }
        i = i + 1;
    }
    proof {
        assert(fields@.skip(i as int).len() == 0);
    }
    false
}

fn text_tokens(s: &str) -> (n: u128)
    ensures
        n == thirds(utf8_len(s@) as int) + 2,
{
    let b = utf8_length(s);
    let up: u128 = if b % 3 == 0 {
        0
    } else {
        1
    };
    proof {
        assert((b + 2) / 3 == b / 3 + up) by (nonlinear_arith)
            requires
                up == (if b % 3 == 0 {
                    0int
                } else {
                    1int
                }),
        ;
    }
    b / 3 + up + 2
}

/// The estimated tokens of a value.
pub fn estimate(j: &Json) -> (n: usize)
    requires
        tokens(*j) <= usize::MAX,
    ensures
        n == tokens(*j),
    decreases j,
{
    match j {
        Json::Text(s) => {
            let t = text_tokens(s.as_str());
            t as usize
        },
        Json::Array(items) => {
            proof {
                lemma_tokens_all_nonneg(items@);
            }
            let mut sum: usize = 2;
            for i in 0..items.len()
                invariant
                    *j == Json::Array(*items),
                    tokens(*j) <= usize::MAX,
                    tokens(*j) == 2 + tokens_all(items@),
                    forall|k: int| 0 <= k <= items@.len() ==> tokens_all(#[trigger] items@.take(k)) <= tokens_all(items@),
                    sum == 2 + tokens_all(items@.take(i as int)),
            {
                proof {
                    assert(items@.take(i + 1).drop_last() =~= items@.take(i as int));
                    assert(items@.take(i + 1).last() == items@[i as int]);
                    assert(tokens_all(items@.take(i + 1)) <= tokens_all(items@));
                    lemma_tokens_all_nonneg(items@.take(i as int));
                }
                let e = estimate(&items[i]);
                sum = sum + e;
            }
            proof {
                assert(items@.take(items@.len() as int) =~= items@);
            }
            sum
        },
        Json::Object(fields) => {
            if is_image_part(fields) {
                return 4096;
            }
            proof {
                lemma_field_tokens_nonneg(fields@);
            }
            let mut sum: usize = 4;
            for i in 0..fields.len()
                invariant
                    *j == Json::Object(*fields),
                    tokens(*j) <= usize::MAX,
                    !image_part(fields@),
                    tokens(*j) == 4 + field_tokens(fields@),
                    forall|k: int| 0 <= k <= fields@.len() ==> field_tokens(#[trigger] fields@.take(k)) <= field_tokens(fields@),
                    sum == 4 + field_tokens(fields@.take(i as int)),
            {
                proof {
                    assert(fields@.take(i + 1).drop_last() =~= fields@.take(i as int));
                    assert(fields@.take(i + 1).last() == fields@[i as int]);
                    assert(field_tokens(fields@.take(i + 1)) <= field_tokens(fields@));
                    lemma_field_tokens_nonneg(fields@.take(i as int));
                    lemma_tokens_nonneg(fields@[i as int].value);
                }
                let f = &fields[i];
                let key = f.key.as_str();
                if !(str_eq(key, "_responses_reasoning") || str_eq(key, "_responses_output")) {
                    let k = text_tokens(key) - 2;
                    let v = estimate(&f.value);
                    sum = sum + k as usize + v + 2;
                }
            }
            proof {
                assert(fields@.take(fields@.len() as int) =~= fields@);
            }
            sum
        },
        _ => 4,
    }
}

proof fn lemma_tokens_all_split(items: Seq<Json>, n: int)
    requires
        0 <= n <= items.len(),
    ensures
        tokens_all(items) == tokens_all(items.take(n)) + tokens_all(items.skip(n)),
    decreases items.len(),
{
    if items.len() == n {
        assert(items.take(n) =~= items);
        assert(items.skip(n).len() == 0);
    } else {
        lemma_tokens_all_split(items.drop_last(), n);
        assert(items.drop_last().take(n) =~= items.take(n));
        assert(items.skip(n).drop_last() =~= items.drop_last().skip(n));
        assert(items.skip(n).last() == items.last());
    }
}

/// Sums the estimates of `items[from..]`.
fn sum_from(items: &Vec<Json>, from: usize) -> (n: usize)
    requires
        from <= items.len(),
        tokens_all(items@) <= usize::MAX,
    ensures
        n == tokens_all(items@.skip(from as int)),
{
    proof {
        lemma_tokens_all_split(items@, from as int);
        lemma_tokens_all_nonneg(items@.take(from as int));
        lemma_tokens_all_nonneg(items@.skip(from as int));
    }
    let ghost tail = items@.skip(from as int);
    let mut sum: usize = 0;
    let mut i = from;
    while i < items.len()
        invariant
            from <= i <= items.len(),
            tail == items@.skip(from as int),
            tokens_all(tail) <= usize::MAX,
            forall|k: int| 0 <= k <= tail.len() ==> tokens_all(#[trigger] tail.take(k)) <= tokens_all(tail),
            sum == tokens_all(tail.take(i - from)),
        decreases items.len() - i,
    {
        proof {
            let k = i - from;
            assert(tail.take(k + 1).drop_last() =~= tail.take(k));
            assert(tail.take(k + 1).last() == items@[i as int]);
            assert(tokens_all(tail.take(k + 1)) <= tokens_all(tail));
            lemma_tokens_all_nonneg(tail.take(k));
            lemma_tokens_nonneg(items@[i as int]);
        }
        let e = estimate(&items[i]);
        sum = sum + e;
        i = i + 1;
    }
    proof {
        assert(tail.take(tail.len() as int) =~= tail);
    }
    sum
}

/// The estimated tokens of a request: 32, its messages and its tools.
pub open spec fn spec_request_tokens(messages: Seq<Json>, tools: Seq<Json>) -> int {
    32 + tokens_all(messages) + tokens_all(tools)
}

pub fn request_tokens(messages: &Vec<Json>, tools: &Vec<Json>) -> (n: usize)
    requires
        spec_request_tokens(messages@, tools@) <= usize::MAX,
    ensures
        n == spec_request_tokens(messages@, tools@),
{
    proof {
        lemma_tokens_all_nonneg(messages@);
        lemma_tokens_all_nonneg(tools@);
        assert(messages@.skip(0) =~= messages@);
        assert(tools@.skip(0) =~= tools@);
    }
    let m = sum_from(messages, 0);
    let t = sum_from(tools, 0);
    32 + m + t
}

/// One more than the largest count a `usize` holds: counts at or above it
/// do not fit.
pub open spec fn token_cap() -> int {
    usize::MAX + 1
}

pub open spec fn capped(n: int) -> int {
    if n > token_cap() {
        token_cap()
    } else {
        n
    }
}

const CAP: u128 = 0x1_0000_0000_0000_0000;

fn cap(n: u128) -> (r: u128)
    requires
        token_cap() <= CAP,
    ensures
        r == capped(n as int),
{
    let c: u128 = usize::MAX as u128 + 1;
    if n > c {
        c
    } else {
        n
    }
}

/// The estimate of a value, or the cap where it does not fit in a `usize`.
fn capped_tokens(j: &Json) -> (n: u128)
    ensures
        n == capped(tokens(*j)),
    decreases j,
{
    proof {
        lemma_tokens_nonneg(*j);
        assert(token_cap() <= CAP) by {
            assert(usize::MAX <= u64::MAX);
        }
    }
    match j {
        Json::Text(s) => cap(text_tokens(s.as_str())),
        Json::Array(items) => {
            let mut acc: u128 = 2;
            proof {
                assert(items@.take(0) =~= Seq::<Json>::empty());
            }
            for i in 0..items.len()
                invariant
                    *j == Json::Array(*items),
                    token_cap() <= CAP,
                    tokens(*j) == 2 + tokens_all(items@),
                    acc == capped(2 + tokens_all(items@.take(i as int))),
            {
                proof {
                    assert(items@.take(i + 1).drop_last() =~= items@.take(i as int));
                    assert(items@.take(i + 1).last() == items@[i as int]);
                    lemma_tokens_all_nonneg(items@.take(i as int));
                    lemma_tokens_nonneg(items@[i as int]);
                }
                let e = capped_tokens(&items[i]);
                acc = cap(acc + e);
            }
            proof {
                assert(items@.take(items@.len() as int) =~= items@);
            }
            acc
        },
        Json::Object(fields) => {
            if is_image_part(fields) {
                return 4096;
            }
            let mut acc: u128 = 4;
            proof {
                assert(fields@.take(0) =~= Seq::<Field>::empty());
            }
            for i in 0..fields.len()
                invariant
                    *j == Json::Object(*fields),
                    token_cap() <= CAP,
                    !image_part(fields@),
                    tokens(*j) == 4 + field_tokens(fields@),
                    acc == capped(4 + field_tokens(fields@.take(i as int))),
            {
                proof {
                    assert(fields@.take(i + 1).drop_last() =~= fields@.take(i as int));
                    assert(fields@.take(i + 1).last() == fields@[i as int]);
                    lemma_field_tokens_nonneg(fields@.take(i as int));
                    lemma_tokens_nonneg(fields@[i as int].value);
                }
                let f = &fields[i];
                let key = f.key.as_str();
                if !(str_eq(key, "_responses_reasoning") || str_eq(key, "_responses_output")) {
                    let k = cap(text_tokens(key));
                    let v = capped_tokens(&f.value);
                    acc = cap(acc + k + v);
                }
            }
            proof {
                assert(fields@.take(fields@.len() as int) =~= fields@);
            }
            acc
        },
        _ => 4,
    }
}

fn capped_sum(items: &Vec<Json>, start: u128) -> (n: u128)
    requires
        start <= CAP,
        token_cap() <= CAP,
    ensures
        n == capped(start + tokens_all(items@)),
{
    let mut acc: u128 = cap(start);
    proof {
        assert(items@.take(0) =~= Seq::<Json>::empty());
    }
    for i in 0..items.len()
        invariant
            token_cap() <= CAP,
            start <= CAP,
            acc == capped(start + tokens_all(items@.take(i as int))),
    {
        proof {
            assert(items@.take(i + 1).drop_last() =~= items@.take(i as int));
            assert(items@.take(i + 1).last() == items@[i as int]);
            lemma_tokens_all_nonneg(items@.take(i as int));
            lemma_tokens_nonneg(items@[i as int]);
        }
        let e = capped_tokens(&items[i]);
        acc = cap(acc + e);
    }
    proof {
        assert(items@.take(items@.len() as int) =~= items@);
    }
    acc
}

/// Whether the estimate of a value fits in a `usize`, as `estimate` needs.
pub fn estimate_fits(j: &Json) -> (r: bool)
    ensures
        r == (tokens(*j) <= usize::MAX),
{
    capped_tokens(j) <= usize::MAX as u128
}

/// Whether the estimate of a request fits in a `usize`, as
/// `request_tokens` and `measurement` need.
pub fn request_fits(messages: &Vec<Json>, tools: &Vec<Json>) -> (r: bool)
    ensures
        r == (spec_request_tokens(messages@, tools@) <= usize::MAX),
{
    proof {
        assert(token_cap() <= CAP) by {
            assert(usize::MAX <= u64::MAX);
        }
        lemma_tokens_all_nonneg(messages@);
        lemma_tokens_all_nonneg(tools@);
    }
    let m = capped_sum(messages, 32);
    let t = capped_sum(tools, m);
    t <= usize::MAX as u128
}

/// What a provider reported about an earlier request: how many messages
/// it held, the identities of the provider, tools and message prefix it
/// was made with, and the input tokens it counted. Each is `None` where
/// missing or not an unsigned integer.
#[derive(Clone, Copy, Debug)]
pub struct Anchor {
    pub messages: Option<u64>,
    pub identity: Option<u64>,
    pub tools: Option<u64>,
    pub prefix: Option<u64>,
    pub input_tokens: Option<u64>,
}

#[derive(Clone, Copy, Debug, PartialEq, Eq, Structural)]
pub enum Source {
    /// The estimate alone.
    Heuristic,
    /// The provider's count, for the same messages.
    Provider,
    /// The provider's count plus the estimate of messages added since.
    ProviderPlusEstimate,
}

impl Source {
    pub fn name(self) -> (s: &'static str)
        ensures
            s@ == match self {
                Source::Heuristic => "heuristic"@,
                Source::Provider => "provider"@,
                Source::ProviderPlusEstimate => "provider_plus_estimate"@,
            },
    {
        match self {
            Source::Heuristic => "heuristic",
            Source::Provider => "provider",
            Source::ProviderPlusEstimate => "provider_plus_estimate",
        }
    }
}

#[derive(Clone, Copy, Debug, PartialEq, Eq, Structural)]
pub struct Measurement {
    pub tokens: usize,
    pub source: Source,
}

/// The messages the anchor covers, `u64::MAX` where it says nothing.
pub open spec fn covered(anchor: Anchor) -> int {
    match anchor.messages {
        Some(n) => n as int,
        None => u64::MAX as int,
    }
}

/// The anchor applies: it covers a prefix of the messages, and was made
/// with this provider, these tools and that very prefix, and it holds a
/// count. `tools_print` and `prefix_print` are the identities of the
/// current tools and of the covered prefix (`None` where the anchor covers
/// more messages than there are).
pub open spec fn anchored(len: int, anchor: Anchor, identity: u64, tools_print: u64, prefix_print: Option<u64>) -> bool {
    &&& covered(anchor) <= len
    &&& anchor.identity == Some(identity)
    &&& anchor.tools == Some(tools_print)
    &&& (prefix_print is Some) && anchor.prefix == prefix_print
    &&& (anchor.input_tokens is Some)
}

/// Measures a request: anchored to the provider's last count where the
/// anchor applies, the count plus the estimate of the messages after the
/// covered prefix (saturating); otherwise the estimate.
pub fn measurement(
    messages: &Vec<Json>,
    tools: &Vec<Json>,
    anchor: &Anchor,
    identity: u64,
    tools_print: u64,
    prefix_print: Option<u64>,
) -> (m: Measurement)
    requires
        spec_request_tokens(messages@, tools@) <= usize::MAX,
    ensures
        !anchored(messages@.len() as int, *anchor, identity, tools_print, prefix_print) ==> (m == (Measurement {
            tokens: spec_request_tokens(messages@, tools@) as usize,
            source: Source::Heuristic,
        })),
        anchored(messages@.len() as int, *anchor, identity, tools_print, prefix_print) ==> ({
            let n = covered(*anchor);
            let sum = anchor.input_tokens->0 + tokens_all(messages@.skip(n));
            &&& m.tokens == if sum <= usize::MAX {
                sum
            } else {
                usize::MAX as int
            }
            &&& m.source == if n == messages@.len() {
                Source::Provider
            } else {
                Source::ProviderPlusEstimate
            }
        }),
{
    let n: u64 = match anchor.messages {
        Some(n) => n,
        None => u64::MAX,
    };
    let len = messages.len();
    let applies = (n as u128) <= (len as u128) && anchor.identity == Some(identity) && anchor.tools == Some(
        tools_print,
    ) && prefix_print.is_some() && anchor.prefix == prefix_print && anchor.input_tokens.is_some();
    if !applies {
        return Measurement { tokens: request_tokens(messages, tools), source: Source::Heuristic };
    }
    let measured = match anchor.input_tokens {
        Some(t) => t,
        None => 0,
    };
    proof {
        lemma_tokens_all_nonneg(messages@);
        lemma_tokens_all_nonneg(tools@);
    }
    let rest = sum_from(messages, n as usize);
    let tokens = (measured as u128 + rest as u128);
    let tokens = if tokens <= usize::MAX as u128 {
        tokens as usize
    } else {
        usize::MAX
    };
    let source = if n as usize == len {
        Source::Provider
    } else {
        Source::ProviderPlusEstimate
    };
    Measurement { tokens, source }
}

} // verus!
