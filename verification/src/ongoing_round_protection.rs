//! Keeps the logs of a round that is still being played from being
//! published.
//!
//! A round's logs lie below a directory called `round-` and the round's
//! number. Which round each server is playing comes from a status document
//! that the caller fetches; what is decided from it is decided here.

use crate::text::{chars_of, str_equals, strip_prefix};
use vstd::prelude::*;
use vstd::slice::slice_subrange;

verus! {

/// What the name of a round's directory begins with.
pub const ROUND_PREFIX: &'static str = "round-";

/// Where the servers' status is fetched from, and which server the rounds of
/// a directory were played on.
#[derive(Clone, Debug, PartialEq, Eq)]
pub struct OngoingRoundProtectionConfig {
    pub serverinfo: String,
    pub paths_to_identifiers: Option<Vec<(String, String)>>,
}

/// What the status document says of one server that is up.
#[derive(Clone, Debug, PartialEq, Eq)]
pub struct ServerData {
    pub round_id: Option<String>,
    pub identifier: String,
}

/// One server of the status document.
#[derive(Clone, Debug, PartialEq, Eq)]
pub struct Server {
    pub data: Option<ServerData>,
}

/// Why no answer can be given.
#[derive(Clone, Copy, Debug, PartialEq, Eq, Structural)]
pub enum RoundError {
    /// A round number is not a number that fits 64 bits.
    InvalidRoundId,
    /// No status document has been read yet.
    RoundIdsUnknown,
}

/// Whether `c` is a decimal digit.
pub open spec fn is_digit(c: char) -> bool {
    '0' <= c <= '9'
}

/// The number that the decimal digit `c` stands for.
pub open spec fn digit_value(c: char) -> nat {
    (c as u32 - '0' as u32) as nat
}

/// Whether `s` holds decimal digits and nothing else.
pub open spec fn all_digits(s: Seq<char>) -> bool {
    forall|i: int| 0 <= i < s.len() ==> is_digit(#[trigger] s[i])
}

/// The number that the decimal digits `digits` stand for.
pub open spec fn number_of(digits: Seq<char>) -> nat
    decreases digits.len(),
{
    if digits.len() == 0 {
        0
    } else {
        number_of(digits.drop_last()) * 10 + digit_value(digits.last())
    }
}

/// The number that `s` is the decimal form of: an optional `+`, then one or
/// more digits and nothing else, for a number that fits 64 bits.
pub open spec fn parse_u64(s: Seq<char>) -> Option<u64> {
    let digits = if s.len() > 0 && s.first() == '+' {
        s.skip(1)
    } else {
        s
    };
    if digits.len() > 0 && all_digits(digits) && number_of(digits) <= u64::MAX {
        Some(number_of(digits) as u64)
    } else {
        None
    }
}

/// The digits of a number stand for at least what fewer of them stand for.
pub proof fn lemma_number_of_prefix(digits: Seq<char>, k: int)
    requires
        0 <= k <= digits.len(),
    ensures
        number_of(digits.take(k)) <= number_of(digits),
    decreases digits.len() - k,
{
    if k < digits.len() {
        lemma_number_of_prefix(digits, k + 1);
        assert(digits.take(k + 1).drop_last() =~= digits.take(k));
    } else {
        assert(digits.take(k) =~= digits);
    }
}

/// The number that `s` is the decimal form of.
pub fn parse_round_id(s: &[char]) -> (r: Option<u64>)
    ensures
        r == parse_u64(s@),
{
    let start: usize = if s.len() > 0 && s[0] == '+' {
        1
    } else {
        0
    };
    let ghost digits = s@.skip(start as int);
    if start == s.len() {
        return None;
    }
    let mut value: u64 = 0;
    let mut i: usize = start;
    assert(digits.take(0) =~= Seq::empty());
    assert(s@.skip(0) =~= s@);
    while i < s.len()
        invariant
            start <= i <= s.len(),
            start < s.len(),
            digits == s@.skip(start as int),
            digits == if s@.len() > 0 && s@.first() == '+' {
                s@.skip(1)
            } else {
                s@
            },
            forall|j: int| 0 <= j < i - start ==> is_digit(digits[j]),
            value == number_of(digits.take(i - start)),
        decreases s.len() - i,
    {
        let c = s[i];
        assert(c == digits[i - start]);
        if !('0' <= c && c <= '9') {
            assert(!is_digit(digits[i - start]));
            return None;
        }
        let d = (c as u32 - '0' as u32) as u64;
        proof {
            let longer = digits.take(i - start + 1);
            assert(longer.drop_last() =~= digits.take(i - start));
            assert(longer.last() == c);
            lemma_number_of_prefix(digits, i - start + 1);
        }
        match value.checked_mul(10) {
            None => {
                return None;
            },
            Some(tens) => match tens.checked_add(d) {
                None => {
                    return None;
                },
                Some(sum) => {
                    value = sum;
                },
            },
        }
        i += 1;
    }
    assert(digits.take(i - start) =~= digits);
    Some(value)
}

/// The server that `mapping` gives for the directory `name`: that of the first
/// entry for it.
pub open spec fn identifier_of(mapping: Seq<(String, String)>, name: Seq<char>) -> Option<
    Seq<char>,
>
    decreases mapping.len(),
{
    if mapping.len() == 0 {
        None
    } else if mapping.first().0@ == name {
        Some(mapping.first().1@)
    } else {
        identifier_of(mapping.drop_first(), name)
    }
}

/// The round that the server `identifier` is playing according to `ids`:
/// that of the first entry for it.
pub open spec fn round_of(ids: Seq<(String, u64)>, identifier: Seq<char>) -> Option<u64>
    decreases ids.len(),
{
    if ids.len() == 0 {
        None
    } else if ids.first().0@ == identifier {
        Some(ids.first().1)
    } else {
        round_of(ids.drop_first(), identifier)
    }
}

/// Whether some server is playing round `round_id`.
pub open spec fn is_played(ids: Seq<(String, u64)>, round_id: u64) -> bool {
    exists|i: int| 0 <= i < ids.len() && (#[trigger] ids[i]).1 == round_id
}

/// What the directory `name` of round `round_id` decides, if it decides.
/// With a mapping, a directory of a server whose round is known decides:
/// the round is being played unless the server has gone on to a later one.
/// Without a mapping, a round that some server is playing decides.
pub open spec fn decided_by(
    mapping: Option<Seq<(String, String)>>,
    ids: Seq<(String, u64)>,
    name: Seq<char>,
    round_id: u64,
) -> Option<bool> {
    match mapping {
        Some(mapping) => match identifier_of(mapping, name) {
            Some(identifier) => match round_of(ids, identifier) {
                Some(current) => Some(round_id >= current),
                None => None,
            },
            None => None,
        },
        None => if is_played(ids, round_id) {
            Some(true)
        } else {
            None
        },
    }
}

/// Whether a path lies in a round that is being played. `names` holds the
/// names of the path and of the directories above it, the innermost first.
/// The first round directory among them that decides gives the answer; a
/// round directory whose number cannot be read is an error; where none
/// decides, the path lies in no such round.
pub open spec fn in_ongoing_round(
    mapping: Option<Seq<(String, String)>>,
    ids: Seq<(String, u64)>,
    names: Seq<Seq<char>>,
) -> Result<bool, RoundError>
    decreases names.len(),
{
    if names.len() == 0 {
        Ok(false)
    } else {
        let name = names.first();
        if !ROUND_PREFIX@.is_prefix_of(name) {
            in_ongoing_round(mapping, ids, names.drop_first())
        } else {
            match parse_u64(name.skip(ROUND_PREFIX@.len() as int)) {
                None => Err(RoundError::InvalidRoundId),
                Some(round_id) => match decided_by(mapping, ids, name, round_id) {
                    Some(answer) => Ok(answer),
                    None => in_ongoing_round(mapping, ids, names.drop_first()),
                },
            }
        }
    }
}

/// `ids` with `round_id` as the round of the server `identifier`, in place of
/// an earlier entry for that server or as a new last entry.
pub open spec fn with_round(
    ids: Seq<(Seq<char>, u64)>,
    identifier: Seq<char>,
    round_id: u64,
) -> Seq<(Seq<char>, u64)>
    decreases ids.len(),
{
    if ids.len() == 0 {
        seq![(identifier, round_id)]
    } else if ids.first().0 == identifier {
        seq![(identifier, round_id)] + ids.drop_first()
    } else {
        seq![ids.first()] + with_round(ids.drop_first(), identifier, round_id)
    }
}

/// The servers and their rounds, as contracts speak of them.
pub open spec fn rounds_view(ids: Seq<(String, u64)>) -> Seq<(Seq<char>, u64)> {
    ids.map_values(|entry: (String, u64)| (entry.0@, entry.1))
}

/// The round of each server that is up and playing one, according to the
/// status document: one entry for each such server, with the round that the
/// document gives last. A round number that cannot be read is an error.
pub open spec fn round_ids_of(servers: Seq<Server>) -> Result<Seq<(Seq<char>, u64)>, RoundError>
    decreases servers.len(),
{
    if servers.len() == 0 {
        Ok(Seq::empty())
    } else {
        match round_ids_of(servers.drop_last()) {
            Err(e) => Err(e),
            Ok(ids) => match servers.last().data {
                Some(data) => match data.round_id {
                    Some(text) => match parse_u64(text@) {
                        Some(round_id) => Ok(with_round(ids, data.identifier@, round_id)),
                        None => Err(RoundError::InvalidRoundId),
                    },
                    None => Ok(ids),
                },
                None => Ok(ids),
            },
        }
    }
}

fn find_identifier<'a>(mapping: &'a Vec<(String, String)>, name: &str) -> (r: Option<&'a String>)
    ensures
        r.deep_view() == identifier_of(mapping@, name@),
{
    let mut i: usize = 0;
    assert(mapping@.skip(0) =~= mapping@);
    while i < mapping.len()
        invariant
            i <= mapping.len(),
            identifier_of(mapping@, name@) == identifier_of(mapping@.skip(i as int), name@),
        decreases mapping.len() - i,
    {
        assert(mapping@.skip(i as int).first() == mapping@[i as int]);
        assert(mapping@.skip(i as int).drop_first() =~= mapping@.skip(i + 1));
        if str_equals(mapping[i].0.as_str(), name) {
            return Some(&mapping[i].1);
        }
        i += 1;
    }
    None
}

fn find_round(ids: &Vec<(String, u64)>, identifier: &str) -> (r: Option<u64>)
    ensures
        r == round_of(ids@, identifier@),
{
    let mut i: usize = 0;
    assert(ids@.skip(0) =~= ids@);
    while i < ids.len()
        invariant
            i <= ids.len(),
            round_of(ids@, identifier@) == round_of(ids@.skip(i as int), identifier@),
        decreases ids.len() - i,
    {
        assert(ids@.skip(i as int).first() == ids@[i as int]);
        assert(ids@.skip(i as int).drop_first() =~= ids@.skip(i + 1));
        if str_equals(ids[i].0.as_str(), identifier) {
            return Some(ids[i].1);
        }
        i += 1;
    }
    None
}

fn some_server_plays(ids: &Vec<(String, u64)>, round_id: u64) -> (b: bool)
    ensures
        b == is_played(ids@, round_id),
{
    let mut i: usize = 0;
    while i < ids.len()
        invariant
            i <= ids.len(),
            forall|j: int| 0 <= j < i ==> (#[trigger] ids@[j]).1 != round_id,
        decreases ids.len() - i,
    {
        if ids[i].1 == round_id {
            return true;
        }
        i += 1;
    }
    false
}

/// The round of each server that is up and playing one, according to the
/// status document.
pub fn round_ids_from_servers(servers: &Vec<Server>) -> (r: Result<Vec<(String, u64)>, RoundError>)
    ensures
        match r {
            Ok(ids) => round_ids_of(servers@) == Ok::<_, RoundError>(rounds_view(ids@)),
            Err(e) => round_ids_of(servers@) == Err::<Seq<(Seq<char>, u64)>, _>(e),
        },
{
    let mut ids: Vec<(String, u64)> = Vec::new();
    let mut i: usize = 0;
    assert(servers@.take(0) =~= Seq::empty());
    assert(rounds_view(ids@) =~= Seq::empty());
    while i < servers.len()
        invariant
            i <= servers.len(),
            round_ids_of(servers@.take(i as int)) == Ok::<_, RoundError>(rounds_view(ids@)),
        decreases servers.len() - i,
    {
        proof {
            assert(servers@.take(i + 1).drop_last() =~= servers@.take(i as int));
            assert(servers@.take(i + 1).last() == servers@[i as int]);
            if i + 1 < servers.len() {
            } else {
                assert(servers@.take(i + 1) =~= servers@);
            }
        }
        match &servers[i].data {
            Some(data) => match &data.round_id {
                Some(text) => {
                    let chars = chars_of(text.as_str());
                    match parse_round_id(chars.as_slice()) {
                        Some(round_id) => {
                            set_round(&mut ids, &data.identifier, round_id);
                        },
                        None => {
                            proof {
                                lemma_round_ids_error(servers@, i + 1);
                            }
                            return Err(RoundError::InvalidRoundId);
                        },
                    }
                },
                None => {},
            },
            None => {},
        }
        i += 1;
    }
    assert(servers@.take(i as int) =~= servers@);
    Ok(ids)
}

/// A status document whose beginning holds a round number that cannot be
/// read holds one.
pub proof fn lemma_round_ids_error(servers: Seq<Server>, k: int)
    requires
        0 <= k <= servers.len(),
        round_ids_of(servers.take(k)) is Err,
    ensures
        round_ids_of(servers) == Err::<Seq<(Seq<char>, u64)>, _>(RoundError::InvalidRoundId),
    decreases servers.len() - k,
{
    lemma_round_ids_error_kind(servers.take(k));
    if k < servers.len() {
        assert(servers.take(k + 1).drop_last() =~= servers.take(k));
        lemma_round_ids_error(servers, k + 1);
    } else {
        assert(servers.take(k) =~= servers);
    }
}

/// The one error of a status document is a round number that cannot be
/// read.
pub proof fn lemma_round_ids_error_kind(servers: Seq<Server>)
    ensures
        round_ids_of(servers) matches Err(e) ==> e == RoundError::InvalidRoundId,
    decreases servers.len(),
{
    if servers.len() > 0 {
        lemma_round_ids_error_kind(servers.drop_last());
    }
}

fn set_round(ids: &mut Vec<(String, u64)>, identifier: &String, round_id: u64)
    ensures
        rounds_view(final(ids)@) == with_round(rounds_view(old(ids)@), identifier@, round_id),
{
    let ghost before = rounds_view(ids@);
    let mut i: usize = 0;
    assert(before.skip(0) =~= before);
    assert(before.take(0) + with_round(before, identifier@, round_id) =~= with_round(
        before,
        identifier@,
        round_id,
    ));
    while i < ids.len()
        invariant
            i <= ids.len(),
            ids@ == old(ids)@,
            before == rounds_view(ids@),
            with_round(before, identifier@, round_id) == before.take(i as int) + with_round(
                before.skip(i as int),
                identifier@,
                round_id,
            ),
        decreases ids.len() - i,
    {
        let ghost rest = before.skip(i as int);
        assert(rest.first() == before[i as int]);
        assert(rest.drop_first() =~= before.skip(i + 1));
        if str_equals(ids[i].0.as_str(), identifier.as_str()) {
            ids.set(i, (identifier.clone(), round_id));
            assert(rounds_view(ids@) =~= before.take(i as int) + (seq![(identifier@, round_id)]
                + rest.drop_first()));
            return ;
        }
        assert(before.take(i + 1) =~= before.take(i as int) + seq![rest.first()]);
        assert(before.take(i + 1) + with_round(before.skip(i + 1), identifier@, round_id)
            =~= before.take(i as int) + with_round(rest, identifier@, round_id));
        i += 1;
    }
    assert(before.take(i as int) =~= before);
    ids.push((identifier.clone(), round_id));
    assert(rounds_view(ids@) =~= before + seq![(identifier@, round_id)]);
}

/// The views of a sequence of names.
pub open spec fn names_view(names: Seq<String>) -> Seq<Seq<char>> {
    names.map_values(|name: String| name@)
}

/// What is known of the rounds that are being played.
#[derive(Clone, Debug, PartialEq, Eq)]
pub struct OngoingRoundProtection {
    pub config: OngoingRoundProtectionConfig,
    pub last_known_round_ids: Option<Vec<(String, u64)>>,
}

impl OngoingRoundProtection {
    /// The directories' servers, where the configuration names them.
    pub open spec fn mapping(&self) -> Option<Seq<(String, String)>> {
        match self.config.paths_to_identifiers {
            Some(mapping) => Some(mapping@),
            None => None,
        }
    }

    /// Nothing is known yet.
    pub fn new(config: OngoingRoundProtectionConfig) -> (r: OngoingRoundProtection)
        ensures
            r.config == config,
            r.last_known_round_ids is None,
    {
        OngoingRoundProtection { config, last_known_round_ids: None }
    }

    /// Takes what a status document says in place of what was known. A
    /// document with a round number that cannot be read changes nothing.
    pub fn update(&mut self, servers: &Vec<Server>) -> (r: Result<(), RoundError>)
        ensures
            final(self).config == old(self).config,
            match round_ids_of(servers@) {
                Ok(ids) => r is Ok && final(self).last_known_round_ids is Some && rounds_view(
                    final(self).last_known_round_ids->0@,
                ) == ids,
                Err(e) => r == Err::<(), _>(e) && final(self).last_known_round_ids == old(
                    self,
                ).last_known_round_ids,
            },
    {
        match round_ids_from_servers(servers) {
            Ok(ids) => {
                self.last_known_round_ids = Some(ids);
                Ok(())
            },
            Err(e) => Err(e),
        }
    }

    /// Whether a path lies in a round that is being played. `names` holds
    /// the names of the path and of the directories above it, the innermost
    /// first.
    pub fn path_is_ongoing_round(&self, names: &Vec<String>) -> (r: Result<bool, RoundError>)
        ensures
            r == match self.last_known_round_ids {
                Some(ids) => in_ongoing_round(self.mapping(), ids@, names_view(names@)),
                None => Err(RoundError::RoundIdsUnknown),
            },
    {
        let ids = match &self.last_known_round_ids {
            Some(ids) => ids,
            None => {
                return Err(RoundError::RoundIdsUnknown);
            },
        };
        let mut i: usize = 0;
        assert(names_view(names@).skip(0) =~= names_view(names@));
        while i < names.len()
            invariant
                i <= names.len(),
                self.last_known_round_ids == Some(*ids),
                in_ongoing_round(self.mapping(), ids@, names_view(names@)) == in_ongoing_round(
                    self.mapping(),
                    ids@,
                    names_view(names@).skip(i as int),
                ),
            decreases names.len() - i,
        {
            let ghost rest = names_view(names@).skip(i as int);
            assert(rest.first() == names@[i as int]@);
            assert(rest.drop_first() =~= names_view(names@).skip(i + 1));
            let name = &names[i];
            let chars = chars_of(name.as_str());
            match strip_prefix(chars.as_slice(), ROUND_PREFIX) {
                Some(n) => {
                    let digits = slice_subrange(chars.as_slice(), n, chars.len());
                    assert(digits@ =~= chars@.skip(n as int));
                    match parse_round_id(digits) {
                        None => {
                            return Err(RoundError::InvalidRoundId);
                        },
                        Some(round_id) => {
                            match self.decide(ids, name.as_str(), round_id) {
                                Some(answer) => {
                                    return Ok(answer);
                                },
                                None => {},
                            }
                        },
                    }
                },
                None => {},
            }
            i += 1;
        }
        Ok(false)
    }

    fn decide(&self, ids: &Vec<(String, u64)>, name: &str, round_id: u64) -> (r: Option<bool>)
        ensures
            r == decided_by(self.mapping(), ids@, name@, round_id),
    {
        match &self.config.paths_to_identifiers {
            Some(mapping) => match find_identifier(mapping, name) {
                Some(identifier) => match find_round(ids, identifier.as_str()) {
                    Some(current) => Some(round_id >= current),
                    None => None,
                },
                None => None,
            },
            None => {
                if some_server_plays(ids, round_id) {
                    Some(true)
                } else {
                    None
                }
            },
        }
    }
}

} // verus!
