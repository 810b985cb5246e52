//! Choosing what the ant account tweets: a scheduled tweet when one is due, otherwise a random
//! released ant that has not been tweeted yet.
use vstd::prelude::*;
use crate::text::push_text;

verus! {

/// The account the tweets are posted from.
#[derive(Debug, Clone)]
pub struct TwitterCredentials {
    pub handle: String,
    pub consumer_key: String,
    pub consumer_secret: String,
    pub access_token: String,
    pub access_token_secret: String,
}

/// A scheduled tweet is due when it is scheduled less than a day away, before or after now.
pub fn scheduled_tweet_due(hours_until_scheduled: i64) -> (r: bool)
    ensures
        r == (-24 < hours_until_scheduled && hours_until_scheduled < 24),
{
    hours_until_scheduled < 24 && hours_until_scheduled > -24
}

/// Picks a position below `n` with `IteratorRandom::choose` over `0..n` and the thread-local
/// generator `rand::rng()`: `None` exactly when `n` is 0, otherwise one of the positions. Which
/// one is left to chance. The generator panics when the operating system cannot seed it; that is
/// not stated here.
#[verifier::external_body]
fn random_position(n: usize) -> (r: Option<usize>)
    ensures
        n == 0 <==> r is None,
        r matches Some(i) ==> i < n,
{
    rand::seq::IteratorRandom::choose(0..n, &mut rand::rng())
}

/// Picks, at random, one of the ants not tweeted yet; `tweeted[i]` says whether ant `i` was.
pub fn choose_random_ant(tweeted: &Vec<bool>) -> (r: usize)
    requires
        exists|i: int| 0 <= i < tweeted@.len() && !tweeted@[i],
    ensures
        r < tweeted@.len(),
        !tweeted@[r as int],
{
    let mut candidates: Vec<usize> = Vec::new();
    let mut i: usize = 0;
    while i < tweeted.len()
        invariant
            i <= tweeted.len(),
            forall|k: int| 0 <= k < candidates@.len() ==> #[trigger] candidates@[k] < tweeted@.len() && !tweeted@[candidates@[k] as int],
            forall|j: int| 0 <= j < i && !tweeted@[j] ==> candidates@.contains(j as usize),
        decreases tweeted.len() - i,
    {
        if !tweeted[i] {
            let ghost before = candidates@;
            candidates.push(i);
            proof {
                assert(candidates@[candidates@.len() - 1] == i);
                assert forall|j: int| 0 <= j < i && !tweeted@[j] implies candidates@.contains(j as usize) by {
                    let k = choose|k: int| 0 <= k < before.len() && before[k] == j as usize;
                    assert(candidates@[k] == j as usize);
                }
            }
        }
        i = i + 1;
    }
    proof {
        let w = choose|j: int| 0 <= j < tweeted@.len() && !tweeted@[j];
        assert(candidates@.contains(w as usize));
    }
    match random_position(candidates.len()) {
        Some(k) => candidates[k],
        None => {
            proof {
                assert(candidates@.len() > 0);
            }
            0
        },
    }
}

/// The text of a scheduled tweet: the prefix, then each ant's text on its own line, then the
/// suffix.
pub open spec fn scheduled_text(prefix: Option<Seq<char>>, ants: Seq<Seq<char>>, suffix: Option<Seq<char>>) -> Seq<char> {
    let p = match prefix {
        Some(p) => p,
        None => Seq::empty(),
    };
    let s = match suffix {
        Some(s) => s,
        None => Seq::empty(),
    };
    p + lines(ants) + s
}

/// Each text followed by a newline.
pub open spec fn lines(ants: Seq<Seq<char>>) -> Seq<char>
    decreases ants.len(),
{
    if ants.len() == 0 {
        Seq::empty()
    } else {
        lines(ants.drop_last()) + ants.last() + seq!['\n']
    }
}

/// The text of a scheduled tweet.
pub fn scheduled_tweet_text(prefix: Option<&str>, ants: &Vec<String>, suffix: Option<&str>) -> (r: String)
    ensures
        r@ == scheduled_text(
            match prefix {
                Some(p) => Some(p@),
                None => None,
            },
            Seq::new(ants@.len(), |i: int| ants@[i]@),
            match suffix {
                Some(s) => Some(s@),
                None => None,
            },
        ),
{
    let ghost texts = Seq::new(ants@.len(), |i: int| ants@[i]@);
    let mut s = String::new();
    match prefix {
        Some(p) => push_text(&mut s, p),
        None => {},
    }
    let ghost start = s@;
    let mut i: usize = 0;
    proof {
        reveal_strlit("\n");
    }
    while i < ants.len()
        invariant
            i <= ants.len(),
            texts == Seq::new(ants@.len(), |i: int| ants@[i]@),
            s@ == start + lines(texts.take(i as int)),
        decreases ants.len() - i,
    {
        push_text(&mut s, ants[i].as_str());
        push_text(&mut s, "\n");
        proof {
            reveal_strlit("\n");
            assert(texts.take(i + 1).drop_last() =~= texts.take(i as int));
            assert(texts.take(i + 1).last() == ants@[i as int]@);
            assert(s@ =~= start + lines(texts.take(i + 1)));
        }
        i = i + 1;
    }
    proof {
        assert(texts.take(i as int) =~= texts);
    }
    match suffix {
        Some(x) => push_text(&mut s, x),
        None => {},
    }
    proof {
        assert(s@ =~= scheduled_text(
            match prefix {
                Some(p) => Some(p@),
                None => None,
            },
            texts,
            match suffix {
                Some(x) => Some(x@),
                None => None,
            },
        ));
    }
    s
}

/// The reply posted under a scheduled tweet: who scheduled it.
pub fn scheduled_by_comment(user_name: &str) -> (r: String)
    ensures
        r@ == "tweet scheduled by: "@ + user_name@,
{
    let mut s = String::new();
    push_text(&mut s, "tweet scheduled by: ");
    push_text(&mut s, user_name);
    s
}

} // verus!
