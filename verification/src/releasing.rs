//! Deciding which suggested ants are released: the history of decisions, how a reply is read,
//! and the order in which undecided ants are offered.
use vstd::prelude::*;
use crate::project_view::{decimal, push_decimal};
use crate::text::{push_text, str_eq};

verus! {

/// A decision about one ant.
#[derive(Debug)]
pub enum UserChoice {
    /// Release the ant, with new content when one was typed.
    Release { ant_id: String, overwrite_content: Option<String> },
    Decline(String),
    Skip(String),
}

/// A decision with its text as sequences.
pub enum ChoiceView {
    Release { ant_id: Seq<char>, overwrite_content: Option<Seq<char>> },
    Decline(Seq<char>),
    Skip(Seq<char>),
}

impl UserChoice {
    pub open spec fn view(&self) -> ChoiceView {
        match self {
            UserChoice::Release { ant_id, overwrite_content } => ChoiceView::Release {
                ant_id: ant_id@,
                overwrite_content: match overwrite_content {
                    Some(c) => Some(c@),
                    None => None,
                },
            },
            UserChoice::Decline(a) => ChoiceView::Decline(a@),
            UserChoice::Skip(a) => ChoiceView::Skip(a@),
        }
    }
}

/// The ant a decision is about.
pub open spec fn choice_ant(c: ChoiceView) -> Seq<char> {
    match c {
        ChoiceView::Release { ant_id, .. } => ant_id,
        ChoiceView::Decline(a) => a,
        ChoiceView::Skip(a) => a,
    }
}

impl UserChoice {
    /// Whether the decision is about ant `ant_id`.
    pub fn is_ant(&self, ant_id: &str) -> (r: bool)
        ensures
            r == (choice_ant(self.view()) == ant_id@),
    {
        match self {
            UserChoice::Release { ant_id: a, .. } => str_eq(a.as_str(), ant_id),
            UserChoice::Decline(a) => str_eq(a.as_str(), ant_id),
            UserChoice::Skip(a) => str_eq(a.as_str(), ant_id),
        }
    }

    pub fn is_released(&self) -> (r: bool)
        ensures
            r == (self.view() is Release),
    {
        match self {
            UserChoice::Release { .. } => true,
            _ => false,
        }
    }

    pub fn is_declined(&self) -> (r: bool)
        ensures
            r == (self.view() is Decline),
    {
        match self {
            UserChoice::Decline(_) => true,
            _ => false,
        }
    }

    pub fn is_skipped(&self) -> (r: bool)
        ensures
            r == (self.view() is Skip),
    {
        match self {
            UserChoice::Skip(_) => true,
            _ => false,
        }
    }
}

/// How many decisions of `h` satisfy `pred`.
pub open spec fn count_where(h: Seq<ChoiceView>, pred: spec_fn(ChoiceView) -> bool) -> nat
    decreases h.len(),
{
    if h.len() == 0 {
        0
    } else {
        count_where(h.drop_last(), pred) + if pred(h.last()) {
            1nat
        } else {
            0nat
        }
    }
}

pub open spec fn released(c: ChoiceView) -> bool {
    c is Release
}

pub open spec fn declined(c: ChoiceView) -> bool {
    c is Decline
}

pub open spec fn skipped(c: ChoiceView) -> bool {
    c is Skip
}

/// The decisions made so far, oldest first.
pub struct History {
    history: Vec<UserChoice>,
}

impl View for History {
    type V = Seq<ChoiceView>;

    closed spec fn view(&self) -> Seq<ChoiceView> {
        Seq::new(self.history@.len(), |i: int| self.history@[i].view())
    }
}

impl History {
    /// A history holding `decisions`, as loaded from where it is kept.
    pub fn new(decisions: Vec<UserChoice>) -> (r: History)
        ensures
            r@ == Seq::new(decisions@.len(), |i: int| decisions@[i].view()),
    {
        History { history: decisions }
    }

    /// An empty history.
    pub fn empty() -> (r: History)
        ensures
            r@ == Seq::<ChoiceView>::empty(),
    {
        let r = History { history: Vec::new() };
        assert(r@ =~= Seq::<ChoiceView>::empty());
        r
    }

    fn count(&self, which: u8) -> (r: usize)
        requires
            which < 3,
        ensures
            r == count_where(self@, if which == 0 { |c: ChoiceView| released(c) } else if which == 1 { |c: ChoiceView| declined(c) } else { |c: ChoiceView| skipped(c) }),
    {
        let ghost pred = if which == 0 {
            |c: ChoiceView| released(c)
        } else if which == 1 {
            |c: ChoiceView| declined(c)
        } else {
            |c: ChoiceView| skipped(c)
        };
        let mut n: usize = 0;
        let mut i: usize = 0;
        while i < self.history.len()
            invariant
                i <= self.history.len(),
                n <= i,
                n == count_where(self@.take(i as int), pred),
                which < 3,
                pred == (if which == 0 { |c: ChoiceView| released(c) } else if which == 1 { |c: ChoiceView| declined(c) } else { |c: ChoiceView| skipped(c) }),
            decreases self.history.len() - i,
        {
            let c = &self.history[i];
            let hit = if which == 0 {
                c.is_released()
            } else if which == 1 {
                c.is_declined()
            } else {
                c.is_skipped()
            };
            proof {
                assert(self@.take(i + 1).drop_last() =~= self@.take(i as int));
                assert(self@.take(i + 1).last() == c.view());
            }
            if hit {
                n = n + 1;
            }
            i = i + 1;
        }
        assert(self@.take(i as int) =~= self@);
        n
    }

    /// How many ants were released.
    pub fn num_released(&self) -> (r: i32)
        ensures
            r == count_where(self@, |c: ChoiceView| released(c)) as i32,
    {
        self.count(0) as i32
    }

    /// How many ants were skipped.
    pub fn num_skipped(&self) -> (r: i32)
        ensures
            r == count_where(self@, |c: ChoiceView| skipped(c)) as i32,
    {
        self.count(2) as i32
    }

    /// How many ants were declined.
    pub fn num_declined(&self) -> (r: i32)
        ensures
            r == count_where(self@, |c: ChoiceView| declined(c)) as i32,
    {
        self.count(1) as i32
    }

    /// Records a decision.
    pub fn push(&mut self, choice: UserChoice)
        ensures
            final(self)@ == old(self)@.push(choice.view()),
    {
        self.history.push(choice);
        assert(self@ =~= old(self)@.push(choice.view()));
    }

    /// Whether some decision is about ant `ant_id`.
    pub fn is_present(&self, ant_id: &str) -> (r: bool)
        ensures
            r == exists|i: int| 0 <= i < self@.len() && choice_ant(#[trigger] self@[i]) == ant_id@,
    {
        let mut i: usize = 0;
        while i < self.history.len()
            invariant
                i <= self.history.len(),
                forall|k: int| 0 <= k < i ==> choice_ant(#[trigger] self@[k]) != ant_id@,
            decreases self.history.len() - i,
        {
            if self.history[i].is_ant(ant_id) {
                assert(choice_ant(self@[i as int]) == ant_id@);
                return true;
            }
            i = i + 1;
        }
        false
    }

    /// Takes back the latest decision, if any.
    pub fn pop(&mut self) -> (r: Option<UserChoice>)
        ensures
            old(self)@.len() == 0 ==> r is None && final(self)@ == old(self)@,
            old(self)@.len() > 0 ==> (r matches Some(c) && c.view() == old(self)@.last()) && final(self)@
                == old(self)@.drop_last(),
    {
        let r = self.history.pop();
        assert(self@ =~= if old(self)@.len() == 0 { old(self)@ } else { old(self)@.drop_last() });
        r
    }

    /// The decisions, oldest first, as they are saved after each change.
    pub fn decisions(&self) -> (r: &Vec<UserChoice>)
        ensures
            Seq::new(r@.len(), |i: int| r@[i].view()) == self@,
    {
        &self.history
    }

    /// The decisions, oldest first.
    pub fn dump(self) -> (r: Vec<UserChoice>)
        ensures
            Seq::new(r@.len(), |i: int| r@[i].view()) == self@,
    {
        self.history
    }
}

/// Taking back a decision just made restores the history and gives the decision back.
pub proof fn law_push_then_pop(h: Seq<ChoiceView>, c: ChoiceView)
    ensures
        h.push(c).drop_last() == h,
        h.push(c).last() == c,
        h.push(c).len() > 0,
{
    assert(h.push(c).drop_last() =~= h);
}

/// A decision counts once, in its own kind only.
pub proof fn law_push_counts(h: Seq<ChoiceView>, c: ChoiceView)
    ensures
        count_where(h.push(c), |x: ChoiceView| released(x)) == count_where(h, |x: ChoiceView| released(x)) + if released(c) {
            1nat
        } else {
            0nat
        },
        count_where(h.push(c), |x: ChoiceView| declined(x)) == count_where(h, |x: ChoiceView| declined(x)) + if declined(c) {
            1nat
        } else {
            0nat
        },
        count_where(h.push(c), |x: ChoiceView| skipped(x)) == count_where(h, |x: ChoiceView| skipped(x)) + if skipped(c) {
            1nat
        } else {
            0nat
        },
{
    assert(h.push(c).drop_last() =~= h);
}

/// What a typed reply asks for.
#[derive(Debug)]
pub enum Reply {
    Decline,
    Accept,
    Skip,
    Done,
    Back,
    /// Release the ant with this text as its content.
    Replace(String),
}

pub open spec fn starts_with(s: Seq<char>, p: Seq<char>) -> bool {
    p.len() <= s.len() && s.take(p.len() as int) == p
}

fn has_prefix(s: &str, p: &str) -> (r: bool)
    ensures
        r == starts_with(s@, p@),
{
    let n = s.unicode_len();
    let m = p.unicode_len();
    if m > n {
        return false;
    }
    let head = s.substring_char(0, m);
    let r = str_eq(head, p);
    assert(s@.subrange(0, m as int) =~= s@.take(m as int));
    r
}

/// Reads a typed reply: `.n`, `.y`, `.s`, `.d` and `.b` (checked in that order, by prefix) decline,
/// accept, skip, stop and go back; any other text replaces the ant's content.
pub fn interpret_reply(buffer: &str) -> (r: Reply)
    ensures
        starts_with(buffer@, ".n"@) ==> r is Decline,
        !starts_with(buffer@, ".n"@) && starts_with(buffer@, ".y"@) ==> r is Accept,
        !starts_with(buffer@, ".n"@) && !starts_with(buffer@, ".y"@) && starts_with(buffer@, ".s"@) ==> r is Skip,
        !starts_with(buffer@, ".n"@) && !starts_with(buffer@, ".y"@) && !starts_with(buffer@, ".s"@) && starts_with(
            buffer@,
            ".d"@,
        ) ==> r is Done,
        !starts_with(buffer@, ".n"@) && !starts_with(buffer@, ".y"@) && !starts_with(buffer@, ".s"@) && !starts_with(
            buffer@,
            ".d"@,
        ) && starts_with(buffer@, ".b"@) ==> r is Back,
        !starts_with(buffer@, ".n"@) && !starts_with(buffer@, ".y"@) && !starts_with(buffer@, ".s"@) && !starts_with(
            buffer@,
            ".d"@,
        ) && !starts_with(buffer@, ".b"@) ==> (r matches Reply::Replace(c) && c@ == buffer@),
{
    if has_prefix(buffer, ".n") {
        Reply::Decline
    } else if has_prefix(buffer, ".y") {
        Reply::Accept
    } else if has_prefix(buffer, ".s") {
        Reply::Skip
    } else if has_prefix(buffer, ".d") {
        Reply::Done
    } else if has_prefix(buffer, ".b") {
        Reply::Back
    } else {
        Reply::Replace(buffer.to_string())
    }
}

/// Applies a reply about ant `ant_id` to the history; returns whether to go on to the next ant.
/// Going back needs a decision to take back.
pub fn apply_reply(history: &mut History, ant_id: &str, reply: Reply) -> (go_on: bool)
    requires
        reply is Back ==> old(history)@.len() > 0,
    ensures
        match reply {
            Reply::Decline => go_on && final(history)@ == old(history)@.push(ChoiceView::Decline(ant_id@)),
            Reply::Accept => go_on && final(history)@ == old(history)@.push(
                ChoiceView::Release { ant_id: ant_id@, overwrite_content: None },
            ),
            Reply::Skip => go_on && final(history)@ == old(history)@.push(ChoiceView::Skip(ant_id@)),
            Reply::Done => !go_on && final(history)@ == old(history)@,
            Reply::Back => go_on && final(history)@ == old(history)@.drop_last(),
            Reply::Replace(c) => go_on && final(history)@ == old(history)@.push(
                ChoiceView::Release { ant_id: ant_id@, overwrite_content: Some(c@) },
            ),
        },
{
    match reply {
        Reply::Decline => {
            history.push(UserChoice::Decline(ant_id.to_string()));
            true
        },
        Reply::Accept => {
            history.push(UserChoice::Release { ant_id: ant_id.to_string(), overwrite_content: None });
            true
        },
        Reply::Skip => {
            history.push(UserChoice::Skip(ant_id.to_string()));
            true
        },
        Reply::Done => false,
        Reply::Back => {
            let _ = history.pop();
            true
        },
        Reply::Replace(c) => {
            history.push(UserChoice::Release { ant_id: ant_id.to_string(), overwrite_content: Some(c) });
            true
        },
    }
}

/// The prompt shown for the `i`-th of `total` ants.
pub fn prompt(i: usize, total: usize, yes: usize, no: usize, skipped: usize, created_by: &str, ant_name: &str) -> (r: String)
    ensures
        r@ == "\n[i:"@ + decimal(i as nat) + ", total:"@ + decimal(total as nat) + ", yes:"@ + decimal(yes as nat) + ", no:"@
            + decimal(no as nat) + ", skipped:"@ + decimal(skipped as nat) + "] ["@ + created_by@ + "]\n    ["@ + ant_name@
            + "]\n(content/.b[ack]/.y[es]/.n[o]/.s[kip]/.d[one]): "@,
{
    let mut s = String::new();
    push_text(&mut s, "\n[i:");
    push_decimal(&mut s, i);
    push_text(&mut s, ", total:");
    push_decimal(&mut s, total);
    push_text(&mut s, ", yes:");
    push_decimal(&mut s, yes);
    push_text(&mut s, ", no:");
    push_decimal(&mut s, no);
    push_text(&mut s, ", skipped:");
    push_decimal(&mut s, skipped);
    push_text(&mut s, "] [");
    push_text(&mut s, created_by);
    push_text(&mut s, "]\n    [");
    push_text(&mut s, ant_name);
    push_text(&mut s, "]\n(content/.b[ack]/.y[es]/.n[o]/.s[kip]/.d[one]): ");
    s
}

/// Calls `SliceRandom::shuffle` on `v` with the thread-local generator `rand::rng()`: the items
/// are reordered, none added or lost. Which order comes out is left to chance. The generator
/// panics when the operating system cannot seed it; that is not stated here.
#[verifier::external_body]
fn shuffle(v: &mut Vec<usize>)
    ensures
        final(v)@.to_multiset() == old(v)@.to_multiset(),
{
    rand::seq::SliceRandom::shuffle(v.as_mut_slice(), &mut rand::rng());
}

/// The positions `0..n`.
pub open spec fn positions(n: nat) -> Seq<usize> {
    Seq::new(n, |i: int| i as usize)
}

/// The ant at position `i` is not decided by the history yet.
pub open spec fn undecided(ant_ids: Seq<String>, history: Seq<ChoiceView>, i: usize) -> bool {
    !exists|k: int| 0 <= k < history.len() && choice_ant(#[trigger] history[k]) == ant_ids[i as int]@
}

/// The positions of `order`, in that order, whose ants the history has not decided yet.
pub fn undecided_in_order(ant_ids: &Vec<String>, history: &History, order: &Vec<usize>) -> (r: Vec<usize>)
    requires
        forall|k: int| 0 <= k < order@.len() ==> #[trigger] order@[k] < ant_ids@.len(),
    ensures
        r@ == order@.filter(|i: usize| undecided(ant_ids@, history@, i)),
{
    let ghost pick = |i: usize| undecided(ant_ids@, history@, i);
    let mut out: Vec<usize> = Vec::new();
    let mut j: usize = 0;
    while j < order.len()
        invariant
            j <= order.len(),
            forall|k: int| 0 <= k < order@.len() ==> #[trigger] order@[k] < ant_ids@.len(),
            pick == (|i: usize| undecided(ant_ids@, history@, i)),
            out@ == order@.take(j as int).filter(pick),
        decreases order.len() - j,
    {
        let p = order[j];
        proof {
            assert(order@.take(j + 1) =~= order@.take(j as int).push(p));
            order@.take(j as int).lemma_filter_push(p, pick);
        }
        if !history.is_present(ant_ids[p].as_str()) {
            out.push(p);
        }
        j = j + 1;
    }
    assert(order@.take(j as int) =~= order@);
    out
}

/// The order in which undecided ants are offered: the positions of `ant_ids` in a random order,
/// without the ants the history already decided.
pub fn offer_order(ant_ids: &Vec<String>, history: &History) -> (r: Vec<usize>)
    ensures
        exists|order: Seq<usize>|
            #![trigger order.to_multiset()]
            order.to_multiset() == positions(ant_ids@.len()).to_multiset() && r@ == order.filter(
                |i: usize| undecided(ant_ids@, history@, i),
            ),
{
    let n = ant_ids.len();
    let mut order: Vec<usize> = Vec::new();
    let mut i: usize = 0;
    while i < n
        invariant
            n == ant_ids@.len(),
            i <= n,
            order@ == positions(i as nat),
        decreases n - i,
    {
        order.push(i);
        assert(order@ =~= positions((i + 1) as nat));
        i = i + 1;
    }
    shuffle(&mut order);
    let ghost shuffled = order@;
    proof {
        shuffled.to_multiset_ensures();
        positions(n as nat).to_multiset_ensures();
        assert forall|k: int| 0 <= k < shuffled.len() implies #[trigger] shuffled[k] < n by {
            assert(shuffled.contains(shuffled[k]));
            assert(shuffled.to_multiset().count(shuffled[k]) > 0);
            assert(positions(n as nat).to_multiset().count(shuffled[k]) > 0);
            assert(positions(n as nat).contains(shuffled[k]));
        }
    }
    undecided_in_order(ant_ids, history, &order)
}

} // verus!
