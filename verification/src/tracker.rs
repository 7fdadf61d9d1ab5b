//! Tracker announces: what is announced, and the fallback across tiers.

pub mod http;
pub mod tracker;
pub mod upd;

use crate::error::EngineError;
use crate::torrent::Torrent;
use vstd::prelude::*;
use vstd::string::{StringExecFns, StringSliceAdditionalSpecFns};

verus! {

/// Why an announce is made.
#[derive(Clone, Copy, Debug, PartialEq, Eq, Structural)]
pub enum AnnounceEvent {
    /// The first announce of a download.
    Started,
    /// The announce made when the last piece is verified.
    Completed,
    /// The announce made when the download is given up.
    Stopped,
    /// An announce at the tracker's interval, with no event.
    Periodic,
}

impl AnnounceEvent {
    /// The text of the `event` parameter.
    pub open spec fn text(self) -> Seq<char> {
        match self {
            AnnounceEvent::Started => "started"@,
            AnnounceEvent::Completed => "completed"@,
            AnnounceEvent::Stopped => "stopped"@,
            AnnounceEvent::Periodic => ""@,
        }
    }

    /// The text of the `event` parameter.
    pub fn as_str(&self) -> (s: &'static str)
        ensures
            s@ == self.text(),
    {
        match self {
            AnnounceEvent::Started => "started",
            AnnounceEvent::Completed => "completed",
            AnnounceEvent::Stopped => "stopped",
            AnnounceEvent::Periodic => "",
        }
    }
}

/// What an announce reports to the tracker.
#[derive(Clone, Copy, Debug, PartialEq, Eq, Structural)]
pub struct AnnounceStats {
    pub uploaded: u64,
    pub downloaded: u64,
    pub left: u64,
    pub event: AnnounceEvent,
}

/// Where a round of announces stands.
#[derive(Clone, Copy, Debug, PartialEq, Eq, Structural)]
pub enum RoundPhase {
    /// Nothing was sent yet.
    Idle,
    /// The URLs of one tier were asked, and some have not answered.
    Waiting,
    /// URL `url` of tier `tier` gave a well-formed response.
    Succeeded { tier: usize, url: usize },
    /// Every URL of every tier failed.
    Failed,
}

/// What is to be done next in a round of announces.
#[derive(Clone, Copy, Debug, PartialEq, Eq, Structural)]
pub enum RoundAction {
    /// Ask every URL of this tier, concurrently.
    Dispatch { tier: usize },
    /// Wait for the URLs that have not answered.
    Wait,
    /// The round has succeeded with the response of this URL; the requests
    /// still under way in its tier may be abandoned.
    Finish { tier: usize, url: usize },
    /// No tracker could be reached.
    GiveUp,
    /// The result was not awaited; nothing changed.
    Ignore,
}

/// The first tier at or after `from` that holds a URL, or the number of
/// tiers where there is none.
pub open spec fn next_tier(sizes: Seq<usize>, from: int) -> int
    decreases sizes.len() - from,
{
    if from >= sizes.len() {
        sizes.len() as int
    } else if from >= 0 && sizes[from] > 0 {
        from
    } else {
        next_tier(sizes, from + 1)
    }
}

/// Whether some entry is true.
pub open spec fn any_true(s: Seq<bool>) -> bool {
    exists|i: int| 0 <= i < s.len() && #[trigger] s[i]
}

/// The mathematical content of an `AnnounceRound`.
pub struct RoundModel {
    pub sizes: Seq<usize>,
    pub phase: RoundPhase,
    pub tier: usize,
    pub pending: Seq<bool>,
}

impl RoundModel {
    /// The invariant of a round: while it waits, it waits for some URL of
    /// the tier that it is at.
    pub open spec fn wf(self) -> bool {
        &&& self.sizes.len() <= usize::MAX
        &&& self.phase is Waiting ==> {
            &&& self.tier < self.sizes.len()
            &&& self.pending.len() == self.sizes[self.tier as int]
            &&& any_true(self.pending)
        }
    }

    /// The round before anything was sent.
    pub open spec fn idle(sizes: Seq<usize>) -> RoundModel {
        RoundModel { sizes, phase: RoundPhase::Idle, tier: 0, pending: Seq::empty() }
    }

    /// The round as it goes on to the first tier at or after `from` that
    /// holds a URL: it waits for all of that tier's URLs, or has failed where
    /// no such tier is left.
    pub open spec fn enter(self, from: int) -> RoundModel {
        let t = next_tier(self.sizes, from);
        if t < self.sizes.len() {
            RoundModel {
                phase: RoundPhase::Waiting,
                tier: t as usize,
                pending: Seq::new(self.sizes[t] as nat, |i: int| true),
                ..self
            }
        } else {
            RoundModel {
                phase: RoundPhase::Failed,
                tier: self.sizes.len() as usize,
                pending: Seq::empty(),
                ..self
            }
        }
    }

    /// What is to be done as the round goes on to the tiers from `from` on.
    pub open spec fn enter_action(self, from: int) -> RoundAction {
        let t = next_tier(self.sizes, from);
        if t < self.sizes.len() {
            RoundAction::Dispatch { tier: t as usize }
        } else {
            RoundAction::GiveUp
        }
    }

    /// The round after its start.
    pub open spec fn started(self) -> RoundModel {
        if self.phase is Idle {
            self.enter(0)
        } else {
            self
        }
    }

    /// What is to be done at the start.
    pub open spec fn start_action(self) -> RoundAction {
        if self.phase is Idle {
            self.enter_action(0)
        } else {
            RoundAction::Ignore
        }
    }

    /// Whether the result of URL `url` of the current tier is awaited.
    pub open spec fn awaits(self, url: int) -> bool {
        self.phase is Waiting && 0 <= url < self.pending.len() && self.pending[url]
    }

    /// The round after URL `url` of the current tier has answered well
    /// (`ok`) or failed. Any success ends the round. A failure leaves the
    /// round waiting for the other URLs of the tier; the failure of the last
    /// one moves the round on to the next tier.
    pub open spec fn after_result(self, url: int, ok: bool) -> RoundModel {
        if !self.awaits(url) {
            self
        } else if ok {
            RoundModel {
                phase: RoundPhase::Succeeded { tier: self.tier, url: url as usize },
                pending: Seq::empty(),
                ..self
            }
        } else {
            let pending = self.pending.update(url, false);
            if any_true(pending) {
                RoundModel { pending, ..self }
            } else {
                self.enter(self.tier + 1)
            }
        }
    }

    /// What is to be done after URL `url` of the current tier has answered.
    pub open spec fn result_action(self, url: int, ok: bool) -> RoundAction {
        if !self.awaits(url) {
            RoundAction::Ignore
        } else if ok {
            RoundAction::Finish { tier: self.tier, url: url as usize }
        } else if any_true(self.pending.update(url, false)) {
            RoundAction::Wait
        } else {
            self.enter_action(self.tier + 1)
        }
    }
}

/// What is known of `next_tier`: it lies at or after `from`, the tier that
/// it names holds a URL, and no tier between does.
pub proof fn lemma_next_tier(sizes: Seq<usize>, from: int)
    requires
        0 <= from,
    ensures
        from <= next_tier(sizes, from) || next_tier(sizes, from) == sizes.len(),
        next_tier(sizes, from) <= sizes.len() || from > sizes.len(),
        next_tier(sizes, from) < sizes.len() ==> sizes[next_tier(sizes, from)] > 0,
        forall|t: int| from <= t < next_tier(sizes, from) ==> #[trigger] sizes[t] == 0,
    decreases sizes.len() - from,
{
    if from < sizes.len() && sizes[from] == 0 {
        lemma_next_tier(sizes, from + 1);
    }
}

/// One round of announces over the tiers of a torrent. It decides which
/// tier to ask and when the round is over; the caller sends the requests and
/// hands each URL's result back.
pub struct AnnounceRound {
    sizes: Vec<usize>,
    phase: RoundPhase,
    tier: usize,
    pending: Vec<bool>,
}

impl View for AnnounceRound {
    type V = RoundModel;

    closed spec fn view(&self) -> RoundModel {
        RoundModel {
            sizes: self.sizes@,
            phase: self.phase,
            tier: self.tier,
            pending: self.pending@,
        }
    }
}

/// Whether some entry is true.
fn some_true(v: &Vec<bool>) -> (found: bool)
    ensures
        found == any_true(v@),
{
    let mut i: usize = 0;
    while i < v.len()
        invariant
            i <= v@.len(),
            forall|k: int| 0 <= k < i ==> !#[trigger] v@[k],
        decreases v@.len() - i,
    {
        if v[i] {
            return true;
        }
        i += 1;
    }
    false
}

/// `n` entries, all true.
fn all_true(n: usize) -> (v: Vec<bool>)
    ensures
        v@ == Seq::new(n as nat, |i: int| true),
{
    let mut v: Vec<bool> = Vec::new();
    let mut i: usize = 0;
    while i < n
        invariant
            i <= n,
            v@ == Seq::new(i as nat, |k: int| true),
        decreases n - i,
    {
        v.push(true);
        i += 1;
        assert(v@ =~= Seq::new(i as nat, |k: int| true));
    }
    v
}

impl AnnounceRound {
    /// The invariant of the round.
    pub open spec fn wf(&self) -> bool {
        self@.wf()
    }

    /// A round over tiers of the given numbers of URLs, before its start.
    pub fn new(sizes: Vec<usize>) -> (round: Self)
        ensures
            round@ == RoundModel::idle(sizes@),
            round.wf(),
    {
        assert(sizes@.len() == sizes.len());
        AnnounceRound { sizes, phase: RoundPhase::Idle, tier: 0, pending: Vec::new() }
    }

    /// A round over the given tiers of URLs, before its start.
    pub fn for_tiers(tiers: &Vec<Vec<String>>) -> (round: Self)
        ensures
            round@ == RoundModel::idle(Seq::new(tiers@.len(), |t: int| tiers@[t]@.len() as usize)),
            round.wf(),
    {
        let mut sizes: Vec<usize> = Vec::new();
        let mut t: usize = 0;
        while t < tiers.len()
            invariant
                t <= tiers@.len(),
                sizes@ == Seq::new(t as nat, |k: int| tiers@[k]@.len() as usize),
            decreases tiers@.len() - t,
        {
            sizes.push(tiers[t].len());
            t += 1;
            assert(sizes@ =~= Seq::new(t as nat, |k: int| tiers@[k]@.len() as usize));
        }
        AnnounceRound::new(sizes)
    }

    /// Goes on to the first tier at or after `from` that holds a URL.
    fn enter(&mut self, from: usize) -> (action: RoundAction)
        requires
            from <= old(self).sizes@.len(),
            old(self).sizes@.len() <= usize::MAX,
        ensures
            final(self)@ == old(self)@.enter(from as int),
            action == old(self)@.enter_action(from as int),
            final(self).wf(),
    {
        let mut t: usize = from;
        while t < self.sizes.len() && self.sizes[t] == 0
            invariant
                from <= t <= self.sizes@.len(),
                self@ == old(self)@,
                next_tier(self.sizes@, from as int) == next_tier(self.sizes@, t as int),
            decreases self.sizes@.len() - t,
        {
            t += 1;
        }
        if t < self.sizes.len() {
            self.phase = RoundPhase::Waiting;
            self.tier = t;
            self.pending = all_true(self.sizes[t]);
            assert(self.pending@[0]);
            RoundAction::Dispatch { tier: t }
        } else {
            self.phase = RoundPhase::Failed;
            self.tier = self.sizes.len();
            self.pending = Vec::new();
            RoundAction::GiveUp
        }
    }

    /// Starts the round: the first tier that holds a URL is to be asked.
    /// Where no tier holds a URL the round has failed at once. A round that
    /// was started before is left as it is.
    pub fn start(&mut self) -> (action: RoundAction)
        requires
            old(self).wf(),
        ensures
            final(self).wf(),
            final(self)@ == old(self)@.started(),
            action == old(self)@.start_action(),
    {
        match self.phase {
            RoundPhase::Idle => self.enter(0),
            _ => RoundAction::Ignore,
        }
    }

    /// Takes the result of URL `url` of the tier that was asked: `ok` where
    /// it gave a well-formed response. A failed URL never fails the round by
    /// itself: the round waits for the rest of its tier, then falls through
    /// to the next tier, and gives up only when no tier is left. A result
    /// that is not awaited is ignored.
    pub fn on_result(&mut self, url: usize, ok: bool) -> (action: RoundAction)
        requires
            old(self).wf(),
        ensures
            final(self).wf(),
            final(self)@ == old(self)@.after_result(url as int, ok),
            action == old(self)@.result_action(url as int, ok),
    {
        let awaited = match self.phase {
            RoundPhase::Waiting => url < self.pending.len() && self.pending[url],
            _ => false,
        };
        if !awaited {
            return RoundAction::Ignore;
        }
        if ok {
            self.phase = RoundPhase::Succeeded { tier: self.tier, url };
            self.pending = Vec::new();
            return RoundAction::Finish { tier: self.tier, url };
        }
        self.pending[url] = false;
        if some_true(&self.pending) {
            RoundAction::Wait
        } else {
            assert(self.tier < self.sizes.len());
            self.enter(self.tier + 1)
        }
    }

    /// Where the round stands.
    pub fn phase(&self) -> (phase: RoundPhase)
        ensures
            phase == self@.phase,
    {
        self.phase
    }

    /// The tier that the round is at.
    pub fn tier(&self) -> (tier: usize)
        ensures
            tier == self@.tier,
    {
        self.tier
    }

    /// How the round ended: the tier and URL that answered, or that no
    /// tracker could be reached; `None` while it is not over.
    pub fn outcome(&self) -> (out: Option<Result<(usize, usize), EngineError>>)
        ensures
            out == (match self@.phase {
                RoundPhase::Succeeded { tier, url } => Some(Ok((tier, url))),
                RoundPhase::Failed => Some(Err(EngineError::TrackerUnreachable)),
                _ => None::<Result<(usize, usize), EngineError>>,
            }),
    {
        match self.phase {
            RoundPhase::Succeeded { tier, url } => Some(Ok((tier, url))),
            RoundPhase::Failed => Some(Err(EngineError::TrackerUnreachable)),
            _ => None,
        }
    }
}

impl RoundModel {
    /// The round after the first `k` URLs of the current tier have answered,
    /// URL `i` with `answers[i]`.
    pub open spec fn after_answers(self, answers: Seq<bool>, k: int) -> RoundModel
        decreases k,
    {
        if k <= 0 {
            self
        } else {
            self.after_answers(answers, k - 1).after_result(k - 1, answers[k - 1])
        }
    }

    /// The round after the first `n` tiers have answered, each URL in turn,
    /// URL `u` of tier `t` with `answers[t][u]`.
    pub open spec fn after_tiers(self, answers: Seq<Seq<bool>>, n: int) -> RoundModel
        decreases n,
    {
        if n <= 0 {
            self.started()
        } else {
            self.after_tiers(answers, n - 1).after_answers(
                answers[n - 1],
                answers[n - 1].len() as int,
            )
        }
    }

    /// While the URLs of a tier fail one after the other, the round waits for
    /// the rest of the tier; when the last has failed it goes on to the next
    /// tier.
    pub proof fn lemma_tier_fails(self, answers: Seq<bool>, k: int)
        requires
            self.sizes.len() <= usize::MAX,
            self.phase is Waiting,
            self.tier < self.sizes.len(),
            self.pending == Seq::new(self.sizes[self.tier as int] as nat, |i: int| true),
            0 <= k <= self.pending.len(),
            answers.len() == self.pending.len(),
            forall|i: int| 0 <= i < k ==> !#[trigger] answers[i],
        ensures
            k < self.pending.len() ==> self.after_answers(answers, k) == (RoundModel {
                pending: Seq::new(self.pending.len(), |i: int| i >= k),
                ..self
            }),
            k == self.pending.len() && k > 0 ==> self.after_answers(answers, k) == self.enter(
                self.tier + 1,
            ),
        decreases k,
    {
        if k > 0 {
            self.lemma_tier_fails(answers, k - 1);
            let prev = self.after_answers(answers, k - 1);
            let want = RoundModel {
                pending: Seq::new(self.pending.len(), |i: int| i >= k - 1),
                ..self
            };
            assert(prev.pending =~= want.pending);
            assert(prev == want);
            assert(prev.awaits(k - 1));
            let pending = prev.pending.update(k - 1, false);
            assert(pending =~= Seq::new(self.pending.len(), |i: int| i >= k));
            if k < self.pending.len() {
                assert(pending[k]);
            } else {
                assert(!any_true(pending));
            }
        } else {
            assert(self.pending =~= Seq::new(self.pending.len(), |i: int| i >= 0));
        }
    }

    /// Once a URL of a tier answers well, after failures only, the round has
    /// succeeded with that URL, and stays so whatever the later URLs answer.
    pub proof fn lemma_tier_answers(self, answers: Seq<bool>, first: int, k: int)
        requires
            self.sizes.len() <= usize::MAX,
            self.phase is Waiting,
            self.tier < self.sizes.len(),
            self.pending == Seq::new(self.sizes[self.tier as int] as nat, |i: int| true),
            answers.len() == self.pending.len(),
            0 <= first < k <= self.pending.len(),
            answers[first],
            forall|i: int| 0 <= i < first ==> !#[trigger] answers[i],
        ensures
            self.after_answers(answers, k) == (RoundModel {
                phase: RoundPhase::Succeeded { tier: self.tier, url: first as usize },
                pending: Seq::empty(),
                ..self
            }),
        decreases k,
    {
        if k == first + 1 {
            self.lemma_tier_fails(answers, first);
            let prev = self.after_answers(answers, first);
            assert(prev.pending =~= Seq::new(self.pending.len(), |i: int| i >= first));
            assert(prev.awaits(first));
        } else {
            self.lemma_tier_answers(answers, first, k - 1);
        }
    }

    /// A round that is over stays as it is, whatever answers come in.
    pub proof fn lemma_over_stays(self, answers: Seq<bool>, k: int)
        requires
            !(self.phase is Waiting),
        ensures
            self.after_answers(answers, k) == self,
        decreases k,
    {
        if k > 0 {
            self.lemma_over_stays(answers, k - 1);
        }
    }

    /// Whether every URL of the first `n` tiers failed.
    pub open spec fn all_failed(answers: Seq<Seq<bool>>, n: int) -> bool {
        forall|t: int, u: int|
            0 <= t < n && 0 <= u < answers[t].len() ==> !#[trigger] answers[t][u]
    }

    /// Whether `answers` holds one answer for each URL of each tier.
    pub open spec fn answers_fit(self, answers: Seq<Seq<bool>>) -> bool {
        &&& answers.len() == self.sizes.len()
        &&& forall|t: int| 0 <= t < answers.len() ==> (#[trigger] answers[t]).len() == self.sizes[t]
    }

    /// While every URL of the tiers asked so far has failed, the round goes
    /// on to the next tier that holds a URL, and no failure ends it before
    /// the last tier was asked.
    pub proof fn lemma_tiers_fail(self, answers: Seq<Seq<bool>>, n: int)
        requires
            self.wf(),
            self.phase is Idle,
            self.answers_fit(answers),
            0 <= n <= self.sizes.len(),
            Self::all_failed(answers, n),
        ensures
            self.after_tiers(answers, n) == self.enter(n),
        decreases n,
    {
        lemma_next_tier(self.sizes, 0);
        if n > 0 {
            self.lemma_tiers_fail(answers, n - 1);
            lemma_next_tier(self.sizes, n - 1);
            lemma_next_tier(self.sizes, n);
            let prev = self.enter(n - 1);
            let tier_answers = answers[n - 1];
            if self.sizes[n - 1] == 0 {
                assert(prev.after_answers(tier_answers, 0) == prev);
            } else {
                assert(next_tier(self.sizes, n - 1) == n - 1);
                assert forall|i: int| 0 <= i < tier_answers.len() implies !#[trigger] tier_answers[i] by {
                    assert(!answers[n - 1][i]);
                }
                prev.lemma_tier_fails(tier_answers, tier_answers.len() as int);
                assert(prev.enter(n) == self.enter(n));
            }
        }
    }

    /// Where every URL of every tier fails, the round ends as failed: no
    /// tracker could be reached.
    pub proof fn lemma_all_tiers_fail(self, answers: Seq<Seq<bool>>)
        requires
            self.wf(),
            self.phase is Idle,
            self.answers_fit(answers),
            Self::all_failed(answers, answers.len() as int),
        ensures
            self.after_tiers(answers, answers.len() as int).phase is Failed,
    {
        self.lemma_tiers_fail(answers, answers.len() as int);
    }

    /// Where every URL of the tiers before `t` fails and URL `u` is the
    /// first of tier `t` to answer well, the round succeeds with that URL,
    /// whatever the later URLs and tiers answer.
    pub proof fn lemma_later_tier_answers(self, answers: Seq<Seq<bool>>, t: int, u: int, n: int)
        requires
            self.wf(),
            self.phase is Idle,
            self.answers_fit(answers),
            0 <= t < n <= self.sizes.len(),
            Self::all_failed(answers, t),
            0 <= u < answers[t].len(),
            answers[t][u],
            forall|i: int| 0 <= i < u ==> !#[trigger] answers[t][i],
        ensures
            self.after_tiers(answers, n).phase == (RoundPhase::Succeeded {
                tier: t as usize,
                url: u as usize,
            }),
        decreases n,
    {
        if n == t + 1 {
            self.lemma_tiers_fail(answers, t);
            lemma_next_tier(self.sizes, t);
            let prev = self.enter(t);
            assert(next_tier(self.sizes, t) == t);
            prev.lemma_tier_answers(answers[t], u, answers[t].len() as int);
        } else {
            self.lemma_later_tier_answers(answers, t, u, n - 1);
            self.after_tiers(answers, n - 1).lemma_over_stays(
                answers[n - 1],
                answers[n - 1].len() as int,
            );
        }
    }
}

/// The protocol that a tracker URL asks for.
#[derive(Clone, Copy, Debug, PartialEq, Eq, Structural)]
pub enum Scheme {
    /// `http` or `https`: the HTTP announce.
    Http,
    /// `udp`: the UDP announce.
    Udp,
    /// Any other scheme: the URL is passed over.
    Unknown,
}

/// Whether the three bytes `://` stand at `at`.
pub open spec fn separator_at(url: Seq<u8>, at: int) -> bool {
    at + 3 <= url.len() && url[at] == 58 && url[at + 1] == 47 && url[at + 2] == 47
}

/// The place of the first `://` at or after `from`, or the length of the
/// text where there is none.
pub open spec fn scheme_end(url: Seq<u8>, from: int) -> int
    decreases url.len() - from,
{
    if from >= url.len() {
        url.len() as int
    } else if from >= 0 && separator_at(url, from) {
        from
    } else {
        scheme_end(url, from + 1)
    }
}

/// The bytes of `udp`.
pub open spec fn udp_name() -> Seq<u8> {
    seq![117u8, 100u8, 112u8]
}

/// The bytes of `http`.
pub open spec fn http_name() -> Seq<u8> {
    seq![104u8, 116u8, 116u8, 112u8]
}

/// The bytes of `https`.
pub open spec fn https_name() -> Seq<u8> {
    seq![104u8, 116u8, 116u8, 112u8, 115u8]
}

/// The protocol of a tracker URL, by the text before its first `://`.
pub open spec fn scheme_class(url: Seq<u8>) -> Scheme {
    let name = url.subrange(0, scheme_end(url, 0));
    if name == udp_name() {
        Scheme::Udp
    } else if name == http_name() || name == https_name() {
        Scheme::Http
    } else {
        Scheme::Unknown
    }
}

/// The protocol of a tracker URL.
pub fn scheme_of(url: &str) -> (scheme: Scheme)
    ensures
        scheme == scheme_class(url.spec_bytes()),
{
    let bytes = url.as_bytes();
    let n = bytes.len();
    let mut end: usize = 0;
    while end < n && !(n - end >= 3 && bytes[end] == 58 && bytes[end + 1] == 47 && bytes[end + 2]
        == 47)
        invariant
            n == bytes@.len(),
            end <= n,
            scheme_end(bytes@, 0) == scheme_end(bytes@, end as int),
        decreases n - end,
    {
        end += 1;
    }
    let ghost name = bytes@.subrange(0, end as int);
    assert(end == scheme_end(bytes@, 0));
    if end == 3 && bytes[0] == 117 && bytes[1] == 100 && bytes[2] == 112 {
        assert(name =~= udp_name());
        Scheme::Udp
    } else if end == 4 && bytes[0] == 104 && bytes[1] == 116 && bytes[2] == 116 && bytes[3]
        == 112 {
        assert(name =~= http_name());
        Scheme::Http
    } else if end == 5 && bytes[0] == 104 && bytes[1] == 116 && bytes[2] == 116 && bytes[3] == 112
        && bytes[4] == 115 {
        assert(name =~= https_name());
        Scheme::Http
    } else {
        assert(name != udp_name()) by {
            if name.len() == 3 {
                assert(udp_name()[0] == 117 && udp_name()[1] == 100 && udp_name()[2] == 112);
                assert(name[0] == bytes@[0] && name[1] == bytes@[1] && name[2] == bytes@[2]);
            }
        }
        assert(name != http_name()) by {
            if name.len() == 4 {
                assert(http_name()[0] == 104 && http_name()[1] == 116 && http_name()[2] == 116
                    && http_name()[3] == 112);
                assert(name[0] == bytes@[0] && name[1] == bytes@[1] && name[2] == bytes@[2]
                    && name[3] == bytes@[3]);
            }
        }
        assert(name != https_name()) by {
            if name.len() == 5 {
                assert(https_name()[0] == 104 && https_name()[1] == 116 && https_name()[2] == 116
                    && https_name()[3] == 112 && https_name()[4] == 115);
                assert(name[0] == bytes@[0] && name[1] == bytes@[1] && name[2] == bytes@[2]
                    && name[3] == bytes@[3] && name[4] == bytes@[4]);
            }
        }
        Scheme::Unknown
    }
}

/// How the status of an HTTP answer is taken.
#[derive(Clone, Copy, Debug, PartialEq, Eq, Structural)]
pub enum StatusClass {
    /// 200: the tracker answered.
    Answered,
    /// 400: the tracker refused the request.
    BadRequest,
    /// Any other status.
    Other,
}

/// How the status of an HTTP answer is taken. Only an answered request ends
/// the round; every other status fails its URL alone.
pub fn classify_status(status: u16) -> (class: StatusClass)
    ensures
        class == (if status == 200 {
            StatusClass::Answered
        } else if status == 400 {
            StatusClass::BadRequest
        } else {
            StatusClass::Other
        }),
{
    if status == 200 {
        StatusClass::Answered
    } else if status == 400 {
        StatusClass::BadRequest
    } else {
        StatusClass::Other
    }
}

/// The trackers of one descriptor.
#[derive(Clone, Debug)]
pub struct Tracker {
    pub torrent: Torrent,
}

/// The numbers of URLs in the tiers of a descriptor's `announce-list`; no
/// tier where it has none.
pub open spec fn list_sizes(t: Torrent) -> Seq<usize> {
    match t.announce_list {
        Some(list) => Seq::new(list@.len(), |i: int| list@[i]@.len() as usize),
        None => Seq::empty(),
    }
}

impl Tracker {
    /// A round of announces over the tiers of the descriptor's
    /// `announce-list`, before its start.
    pub fn request(&self) -> (round: AnnounceRound)
        ensures
            round@ == RoundModel::idle(list_sizes(self.torrent)),
            round.wf(),
    {
        match &self.torrent.announce_list {
            Some(list) => AnnounceRound::for_tiers(list),
            None => AnnounceRound::new(Vec::new()),
        }
    }
}

/// The parameters of a first announce with nothing transferred yet.
pub struct TrackerHttpRquest {}

impl TrackerHttpRquest {
    /// The parameters of a first announce for the torrent whose info hash
    /// has the query text `info_hash`: this client's peer id and port,
    /// nothing transferred, `left` bytes to come.
    pub fn build_get_request_params(info_hash: &str, left: u64) -> (params: Vec<
        (&'static str, String),
    >)
        ensures
            params@.len() == 7,
            params@[0].0@ == "info_hash"@ && params@[0].1@ == info_hash@,
            params@[1].0@ == "peer_id"@ && params@[1].1@ == "00112233445566778899"@,
            params@[2].0@ == "port"@ && params@[2].1@ == "6881"@,
            params@[3].0@ == "uploaded"@ && params@[3].1@ == "0"@,
            params@[4].0@ == "downloaded"@ && params@[4].1@ == "0"@,
            params@[5].0@ == "left"@ && params@[5].1@ == crate::text::decimal(left as nat),
            params@[6].0@ == "event"@ && params@[6].1@ == "started"@,
    {
        let mut params: Vec<(&'static str, String)> = Vec::new();
        params.push(("info_hash", String::from_str(info_hash)));
        params.push(("peer_id", String::from_str("00112233445566778899")));
        params.push(("port", String::from_str("6881")));
        params.push(("uploaded", String::from_str("0")));
        params.push(("downloaded", String::from_str("0")));
        params.push(("left", crate::text::u64_to_decimal(left)));
        params.push(("event", String::from_str("started")));
        params
    }
}

} // verus!
