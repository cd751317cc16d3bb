//! What is asked of the broker, and what its answers mean.

use vstd::prelude::*;

use crate::outside::{lowercase, text_to_lowercase};
use crate::state::{encode_key_token, key_token, HARDWARE_MESSAGES_LANE};
use crate::text::{
    contains, contains_text, ends_with, has_prefix, has_suffix, joined, push_text, stands_at,
    starts_with,
};
use crate::text_map::TextMap;

verus! {

/// What the subjects of lanes start with.
pub const LANE_PREFIX: &'static str = "deckr.lane";

/// The subjects of a lane's messages.
pub open spec fn lane_subjects(lane: Seq<char>) -> Seq<char> {
    LANE_PREFIX@ + "."@ + key_token(lane) + ".>"@
}

/// The subjects of the hardware lane's messages.
pub fn hardware_message_subjects() -> (r: String)
    ensures
        r@ == lane_subjects(HARDWARE_MESSAGES_LANE@),
{
    let mut subject = joined(LANE_PREFIX, ".");
    push_text(&mut subject, encode_key_token(HARDWARE_MESSAGES_LANE).as_str());
    push_text(&mut subject, ".>");
    subject
}

/// What to watch for changes under a prefix: all keys below it where it ends with a dot, else the
/// key itself.
pub open spec fn watched(prefix: Seq<char>) -> Seq<char> {
    if has_suffix(prefix, "."@) {
        prefix + ">"@
    } else {
        prefix
    }
}

/// What to watch for changes under a prefix.
pub fn watch_key(prefix: &str) -> (r: String)
    ensures
        r@ == watched(prefix@),
{
    if ends_with(prefix, ".") {
        joined(prefix, ">")
    } else {
        prefix.to_owned()
    }
}

/// What was last done with a key.
#[derive(Debug, Clone, Copy, PartialEq, Eq, Structural)]
pub enum EntryOperation {
    Put,
    Delete,
    Purge,
}

/// Whether a key holds a value: it was put last.
pub fn holds_value(operation: EntryOperation) -> (r: bool)
    ensures
        r == (operation == EntryOperation::Put),
{
    matches!(operation, EntryOperation::Put)
}

/// Whether a key is listed under a prefix.
pub fn is_listed(key: &str, prefix: &str) -> (r: bool)
    ensures
        r == has_prefix(key@, prefix@),
{
    starts_with(key, prefix)
}

/// Whether a message of the broker, in lower case, says that there is nothing to list.
pub open spec fn says_nothing_there(lowered: Seq<char>) -> bool {
    contains_text(lowered, "no keys"@) || contains_text(lowered, "no messages"@)
}

/// Whether a message of the broker, in lower case, says that there is nothing to list.
pub fn names_no_keys(lowered: &str) -> (r: bool)
    ensures
        r == says_nothing_there(lowered@),
{
    contains(lowered, "no keys") || contains(lowered, "no messages")
}

/// Whether an error of the broker means that there is nothing to list.
pub fn is_no_keys_error(message: &str) -> (r: bool)
    ensures
        r == says_nothing_there(lowercase(message@)),
{
    names_no_keys(text_to_lowercase(message).as_str())
}

// ---------------------------------------------------------------------------------------------
// Buckets
// ---------------------------------------------------------------------------------------------

/// Why a bucket cannot hold what is to be discovered.
#[derive(Debug, Clone, Copy, PartialEq, Eq, Structural)]
pub enum BucketError {
    /// It keeps another number of values for a key than one.
    History(i64),
    /// Its values expire.
    Expiry { max_age_nanos: u128 },
}

/// Whether a bucket can hold what is to be discovered: one value for a key, for as long as it is
/// wanted.
pub open spec fn bucket_check(history: i64, max_age_nanos: u128) -> Result<(), BucketError> {
    if history != 1 {
        Err(BucketError::History(history))
    } else if max_age_nanos != 0 {
        Err(BucketError::Expiry { max_age_nanos })
    } else {
        Ok(())
    }
}

/// Whether a bucket can hold what is to be discovered.
pub fn validate_discovery_bucket(history: i64, max_age_nanos: u128) -> (r: Result<(), BucketError>)
    ensures
        r == bucket_check(history, max_age_nanos),
{
    if history != 1 {
        return Err(BucketError::History(history));
    }
    if max_age_nanos != 0 {
        return Err(BucketError::Expiry { max_age_nanos });
    }
    Ok(())
}

/// How far opening a bucket has come.
#[derive(Debug, Clone, Copy, PartialEq, Eq, Structural)]
pub enum BucketStep {
    /// Open the bucket.
    Open,
    /// Make the bucket.
    Create,
    /// Open the bucket that another has made meanwhile.
    Reopen,
    /// Look whether the bucket is as it should be.
    Validate,
    /// Give up.
    Fail,
}

/// What follows a step.
pub open spec fn step_after(step: BucketStep, succeeded: bool) -> BucketStep {
    match step {
        BucketStep::Open => if succeeded {
            BucketStep::Validate
        } else {
            BucketStep::Create
        },
        BucketStep::Create => if succeeded {
            BucketStep::Validate
        } else {
            BucketStep::Reopen
        },
        BucketStep::Reopen => if succeeded {
            BucketStep::Validate
        } else {
            BucketStep::Fail
        },
        _ => step,
    }
}

/// What follows a step.
pub fn next_bucket_step(step: BucketStep, succeeded: bool) -> (r: BucketStep)
    ensures
        r == step_after(step, succeeded),
{
    match step {
        BucketStep::Open => if succeeded {
            BucketStep::Validate
        } else {
            BucketStep::Create
        },
        BucketStep::Create => if succeeded {
            BucketStep::Validate
        } else {
            BucketStep::Reopen
        },
        BucketStep::Reopen => if succeeded {
            BucketStep::Validate
        } else {
            BucketStep::Fail
        },
        _ => step,
    }
}

/// Opening a bucket ends after three steps at most: with the bucket as soon as one of them
/// succeeds, and without it only if all three fail.
pub proof fn opening_a_bucket_ends(opened: bool, created: bool, reopened: bool)
    ensures
        ({
            let last = step_after(
                step_after(step_after(BucketStep::Open, opened), created),
                reopened,
            );
            last == if opened || created || reopened {
                BucketStep::Validate
            } else {
                BucketStep::Fail
            }
        }),
{
}

// ---------------------------------------------------------------------------------------------
// Headers
// ---------------------------------------------------------------------------------------------

/// Those of the headers that a message should have which it has, with the values that it has.
pub fn present_headers(expected: &TextMap<String>, headers: &TextMap<String>) -> (r: TextMap<String>)
    ensures
        forall|name: Seq<char>| #[trigger]
            r.deep_view().contains_key(name) <==> expected.deep_view().contains_key(name)
                && headers.deep_view().contains_key(name),
        forall|name: Seq<char>|
            r.deep_view().contains_key(name) ==> #[trigger] r.deep_view()[name]
                == headers.deep_view()[name],
{
    let mut present: TextMap<String> = TextMap::new();
    let ghost keys = expected.keys();
    let n = expected.len();
    let mut i: usize = 0;
    while i < n
        invariant
            i <= n == expected.keys().len(),
            keys == expected.keys(),
            forall|name: Seq<char>| #[trigger]
                present@.contains_key(name) <==> keys.take(i as int).contains(name)
                    && headers@.contains_key(name),
            forall|name: Seq<char>|
                present@.contains_key(name) ==> (#[trigger] present@[name])@ == headers@[name]@,
        decreases n - i,
    {
        let ghost held = present@;
        let name = expected.key_at(i);
        if let Some(value) = headers.get(name.as_str()) {
            present.insert(name.clone(), value.clone());
        }
        proof {
            let before = keys.take(i as int);
            let after = keys.take(i + 1);
            assert(after =~= before.push(name@));
            assert forall|x: Seq<char>| #[trigger]
                present@.contains_key(x) <==> after.contains(x) && headers@.contains_key(x) by {
                assert(held.contains_key(x) <==> before.contains(x) && headers@.contains_key(x));
                if before.contains(x) {
                    let k = choose|k: int| 0 <= k < before.len() && before[k] == x;
                    assert(after[k] == x);
                }
                if x == name@ {
                    assert(after[i as int] == x);
                }
                if after.contains(x) && x != name@ {
                    let k = choose|k: int| 0 <= k < after.len() && after[k] == x;
                    assert(before[k] == x);
                }
            }
        }
        i += 1;
    }
    proof {
        assert(keys.take(n as int) =~= keys);
        assert forall|name: Seq<char>| #[trigger]
            present.deep_view().contains_key(name) <==> expected.deep_view().contains_key(name)
                && headers.deep_view().contains_key(name) by {
            assert(present@.contains_key(name) <==> keys.contains(name) && headers@.contains_key(
                name,
            ));
            assert(expected@.contains_key(name) <==> keys.contains(name));
        }
        assert forall|name: Seq<char>|
            present.deep_view().contains_key(name) implies #[trigger] present.deep_view()[name]
            == headers.deep_view()[name] by {
            assert(present@.contains_key(name));
            assert(present@[name]@ == headers@[name]@);
        }
    }
    present
}

// ---------------------------------------------------------------------------------------------
// Laws
// ---------------------------------------------------------------------------------------------

/// The subjects of a lane are all that follow its token behind `deckr.lane`.
pub proof fn lanes_have_their_own_subjects(lane: Seq<char>)
    ensures
        lane_subjects(lane) == "deckr.lane."@ + key_token(lane) + ".>"@,
{
    reveal_strlit("deckr.lane.");
    reveal_strlit("deckr.lane");
    reveal_strlit(".");
    assert("deckr.lane."@ =~= "deckr.lane"@ + "."@);
}

/// A prefix that ends with a dot is watched with all that follows it; any other is watched as the key
/// that it is.
pub proof fn prefixes_are_watched_with_what_follows(prefix: Seq<char>)
    ensures
        prefix.len() > 0 && prefix.last() == '.' ==> watched(prefix) == prefix.push('>'),
        prefix.len() == 0 || prefix.last() != '.' ==> watched(prefix) == prefix,
{
    reveal_strlit(".");
    reveal_strlit(">");
    assert(prefix + ">"@ =~= prefix.push('>'));
    if prefix.len() > 0 {
        let end = prefix.skip(prefix.len() - 1);
        assert(end[0] == prefix.last());
        if prefix.last() == '.' {
            assert(end =~= "."@);
        }
        if has_suffix(prefix, "."@) {
            assert(end == "."@);
            assert("."@[0] == '.');
        }
    }
}

/// A bucket can hold what is to be discovered exactly if it keeps one value for a key and its values
/// never expire; of a bucket that does neither, the number of values is told.
pub proof fn buckets_keep_one_value_for_good(history: i64, max_age_nanos: u128)
    ensures
        bucket_check(history, max_age_nanos) is Ok <==> history == 1 && max_age_nanos == 0,
        history != 1 ==> bucket_check(history, max_age_nanos) == Err::<(), BucketError>(
            BucketError::History(history),
        ),
        history == 1 && max_age_nanos != 0 ==> bucket_check(history, max_age_nanos) == Err::<
            (),
            BucketError,
        >(BucketError::Expiry { max_age_nanos }),
{
}

/// Opening a bucket goes one way: open it, else make it, else open the one that another made; what
/// succeeds is looked at, and what has ended stays as it ended.
pub proof fn buckets_are_opened_before_they_are_made(step: BucketStep, succeeded: bool)
    ensures
        succeeded && (step == BucketStep::Open || step == BucketStep::Create || step
            == BucketStep::Reopen) ==> step_after(step, succeeded) == BucketStep::Validate,
        step_after(BucketStep::Open, false) == BucketStep::Create,
        step_after(BucketStep::Create, false) == BucketStep::Reopen,
        step_after(BucketStep::Reopen, false) == BucketStep::Fail,
        step_after(BucketStep::Validate, succeeded) == BucketStep::Validate,
        step_after(BucketStep::Fail, succeeded) == BucketStep::Fail,
{
}

/// Which messages of the broker say that there is nothing to list: those that speak of no keys, and
/// those that speak of no messages.
pub proof fn messages_say_that_nothing_is_there(before: Seq<char>, after: Seq<char>)
    ensures
        says_nothing_there(before + "no keys"@ + after),
        says_nothing_there(before + "no messages"@ + after),
        forall|text: Seq<char>| #[trigger]
            says_nothing_there(text) ==> contains_text(text, "no keys"@) || contains_text(
                text,
                "no messages"@,
            ),
{
    let n = before.len() as int;
    let first = before + "no keys"@ + after;
    let second = before + "no messages"@ + after;
    assert(first.subrange(n, n + "no keys"@.len()) =~= "no keys"@);
    assert(second.subrange(n, n + "no messages"@.len()) =~= "no messages"@);
    assert(stands_at(first, "no keys"@, n));
    assert(stands_at(second, "no messages"@, n));
}

} // verus!
