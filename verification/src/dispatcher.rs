//! The dispatch state machine. One `Dispatcher` carries a single inbound
//! request through resolution, the serial primary attempt, the concurrent
//! race over the remaining providers, and cross-model fallback, deciding
//! after every reported outcome what the surrounding process must do
//! next. The process performs the upstream calls and feeds back each
//! outcome's class; outcomes of raced attempts are reported in completion
//! order.
//!
//! A 2xx or 4xx answer ends the dispatch at once: the machine turns
//! terminal and never issues another attempt. Only 5xx answers and
//! transport failures race the remaining providers and, after the whole
//! group has failed, move to the primary provider's fallback model.

use vstd::prelude::*;
use crate::config::{ClientConfig, ClientConfigV};

verus! {

/// How many cross-model fallback hops are followed before the dispatch
/// is declared exhausted.
pub const MAX_FALLBACK_DEPTH: usize = 8;

/// The class of one attempt's outcome. An upstream answer is classified
/// by its status; a transport or decoding failure counts as
/// `TransportError`.
pub enum AttemptClass {
    Success,
    ClientError,
    ServerError,
    OtherStatus,
    TransportError,
}

/// The class of an upstream HTTP status: 2xx is success, 4xx a client
/// error that is never retried, 5xx a server error eligible for the
/// race and fallback; anything else is skipped without being held.
pub fn classify_status(status: u16) -> (r: AttemptClass)
    ensures
        200 <= status < 300 ==> r is Success,
        400 <= status < 500 ==> r is ClientError,
        500 <= status < 600 ==> r is ServerError,
        (status < 200 || (300 <= status < 400) || status >= 600) ==> r is OtherStatus,
{
    if 200 <= status && status < 300 {
        AttemptClass::Success
    } else if 400 <= status && status < 500 {
        AttemptClass::ClientError
    } else if 500 <= status && status < 600 {
        AttemptClass::ServerError
    } else {
        AttemptClass::OtherStatus
    }
}

/// Where the machine stands.
pub enum Phase {
    NeedResolve,
    AwaitPrimary,
    Racing,
    Done,
}

/// What the surrounding process must do next.
#[derive(Debug)]
pub enum Step {
    AttemptPrimary,
    RaceRest,
    Wait,
    Resolve,
    ReturnCurrent,
    ReturnLast,
    FailNotFound,
    FailExhausted,
}

pub struct Dispatcher {
    pub current_model: String,
    pub providers: Vec<ClientConfig>,
    pub reported: Vec<bool>,
    pub outstanding: usize,
    pub tried: Vec<String>,
    pub has_last: bool,
    pub depth: usize,
    pub phase: Phase,
}

/// Mathematical state of the machine.
pub struct DispatcherV {
    pub current_model: Seq<char>,
    pub providers: Seq<ClientConfigV>,
    pub reported: Seq<bool>,
    pub outstanding: int,
    pub tried: Seq<Seq<char>>,
    pub has_last: bool,
    pub depth: int,
    pub phase: Phase,
}

impl DeepView for Dispatcher {
    type V = DispatcherV;

    open spec fn deep_view(&self) -> DispatcherV {
        DispatcherV {
            current_model: self.current_model@,
            providers: self.providers.deep_view(),
            reported: self.reported@,
            outstanding: self.outstanding as int,
            tried: self.tried.deep_view(),
            has_last: self.has_last,
            depth: self.depth as int,
            phase: self.phase,
        }
    }
}

/// Number of raced attempts not yet reported.
pub open spec fn count_false(s: Seq<bool>) -> int
    decreases s.len(),
{
    if s.len() == 0 {
        0
    } else {
        (if s[0] { 0int } else { 1int }) + count_false(s.subrange(1, s.len() as int))
    }
}

proof fn lemma_count_false_update(s: Seq<bool>, i: int)
    requires
        0 <= i < s.len(),
        !s[i],
    ensures
        count_false(s.update(i, true)) == count_false(s) - 1,
    decreases s.len(),
{
    let t = s.update(i, true);
    if i == 0 {
        assert(t.subrange(1, t.len() as int) =~= s.subrange(1, s.len() as int));
    } else {
        assert(t[0] == s[0]);
        assert(t.subrange(1, t.len() as int)
            =~= s.subrange(1, s.len() as int).update(i - 1, true));
        lemma_count_false_update(s.subrange(1, s.len() as int), i - 1);
    }
}

proof fn lemma_count_false_bounds(s: Seq<bool>)
    ensures
        0 <= count_false(s) <= s.len(),
    decreases s.len(),
{
    if s.len() > 0 {
        lemma_count_false_bounds(s.subrange(1, s.len() as int));
    }
}

impl DispatcherV {
    /// Well-formedness, preserved by every transition.
    pub open spec fn wf(self) -> bool {
        &&& 0 <= self.depth <= MAX_FALLBACK_DEPTH
        &&& match self.phase {
            Phase::NeedResolve => true,
            Phase::AwaitPrimary => self.providers.len() > 0,
            Phase::Racing => {
                &&& self.providers.len() > 1
                &&& self.reported.len() == self.providers.len()
                &&& self.reported[0]
                &&& self.outstanding == count_false(self.reported)
                &&& self.outstanding >= 1
            },
            Phase::Done => true,
        }
    }

    /// Whether the class ends the dispatch with the reported response:
    /// a 2xx is the answer, and a 4xx is a business answer that is never
    /// retried.
    pub open spec fn is_terminal_class(class: AttemptClass) -> bool {
        class is Success || class is ClientError
    }

    /// Whether the class may leave a response held as `last`: 5xx and
    /// transport failures do, other statuses are skipped without being
    /// held.
    pub open spec fn holds_last(class: AttemptClass) -> bool {
        class is ServerError || class is TransportError
    }

    /// The machine after the whole provider group of the current model
    /// has failed: follow the primary's fallback model if one is
    /// configured and the depth cap allows, else finish.
    pub open spec fn spec_group_failed(self) -> (DispatcherV, Step) {
        match self.providers[0].fallback {
            Some(fallback_model) => if self.depth < MAX_FALLBACK_DEPTH {
                (
                    DispatcherV {
                        current_model: fallback_model,
                        depth: self.depth + 1,
                        phase: Phase::NeedResolve,
                        ..self
                    },
                    Step::Resolve,
                )
            } else {
                self.spec_finish_failed()
            },
            None => self.spec_finish_failed(),
        }
    }

    pub open spec fn spec_finish_failed(self) -> (DispatcherV, Step) {
        (
            DispatcherV { phase: Phase::Done, ..self },
            if self.has_last {
                Step::ReturnLast
            } else {
                Step::FailExhausted
            },
        )
    }

    /// Resolution handed the machine the matched, selector-ordered
    /// providers of the current model.
    pub open spec fn spec_resolve(self, providers: Seq<ClientConfigV>) -> (DispatcherV, Step) {
        if providers.len() == 0 {
            (DispatcherV { providers, phase: Phase::Done, ..self }, Step::FailNotFound)
        } else {
            (DispatcherV { providers, phase: Phase::AwaitPrimary, ..self }, Step::AttemptPrimary)
        }
    }

    /// The primary attempt's outcome was reported.
    pub open spec fn spec_report_primary(self, class: AttemptClass) -> (DispatcherV, Step) {
        let tried = self.tried.push(self.providers[0].name);
        if Self::is_terminal_class(class) {
            (DispatcherV { tried, phase: Phase::Done, ..self }, Step::ReturnCurrent)
        } else {
            let has_last = self.has_last || Self::holds_last(class);
            if self.providers.len() > 1 {
                (
                    DispatcherV {
                        tried,
                        has_last,
                        phase: Phase::Racing,
                        reported: Seq::new(self.providers.len(), |i: int| i == 0),
                        outstanding: self.providers.len() - 1,
                        ..self
                    },
                    Step::RaceRest,
                )
            } else {
                DispatcherV { tried, has_last, ..self }.spec_group_failed()
            }
        }
    }

    /// A raced attempt's outcome was reported, in completion order.
    pub open spec fn spec_report_raced(self, idx: int, class: AttemptClass) -> (DispatcherV, Step) {
        let tried = self.tried.push(self.providers[idx].name);
        let reported = self.reported.update(idx, true);
        if Self::is_terminal_class(class) {
            (DispatcherV { tried, reported, phase: Phase::Done, ..self }, Step::ReturnCurrent)
        } else {
            let has_last = self.has_last || Self::holds_last(class);
            let next = DispatcherV {
                tried,
                reported,
                has_last,
                outstanding: self.outstanding - 1,
                ..self
            };
            if self.outstanding > 1 {
                (next, Step::Wait)
            } else {
                next.spec_group_failed()
            }
        }
    }
}

impl Dispatcher {
    /// A fresh machine for one inbound request.
    pub fn new(initial_model: String) -> (r: Dispatcher)
        ensures
            r.deep_view().current_model == initial_model@,
            r.deep_view().tried == Seq::<Seq<char>>::empty(),
            r.deep_view().depth == 0,
            !r.deep_view().has_last,
            r.deep_view().phase is NeedResolve,
            r.deep_view().wf(),
    {
        let r = Dispatcher {
            current_model: initial_model,
            providers: Vec::new(),
            reported: Vec::new(),
            outstanding: 0,
            tried: Vec::new(),
            has_last: false,
            depth: 0,
            phase: Phase::NeedResolve,
        };
        proof {
            assert(r.deep_view().tried =~= Seq::<Seq<char>>::empty());
        }
        r
    }

    /// Hands the machine the matched, selector-ordered providers for the
    /// current model. The caller must have obtained them from
    /// [`crate::matcher::find_matching_clients`] and the selector on the
    /// configuration snapshot it samples for this resolution.
    pub fn resolve(&mut self, providers: Vec<ClientConfig>) -> (r: Step)
        requires
            old(self).deep_view().wf(),
            old(self).deep_view().phase is NeedResolve,
        ensures
            (final(self).deep_view(), r)
                == old(self).deep_view().spec_resolve(providers.deep_view()),
            final(self).deep_view().wf(),
    {
        let is_empty: bool = providers.len() == 0;
        self.providers = providers;
        if is_empty {
            self.phase = Phase::Done;
            Step::FailNotFound
        } else {
            self.phase = Phase::AwaitPrimary;
            Step::AttemptPrimary
        }
    }

    /// Reports the class of the serial primary attempt's outcome.
    /// A 2xx or 4xx ends the dispatch (`ReturnCurrent`); any other
    /// outcome races the remaining providers or, when there are none,
    /// falls back or finishes.
    pub fn report_primary(&mut self, class: AttemptClass) -> (r: Step)
        requires
            old(self).deep_view().wf(),
            old(self).deep_view().phase is AwaitPrimary,
        ensures
            (final(self).deep_view(), r)
                == old(self).deep_view().spec_report_primary(class),
            final(self).deep_view().wf(),
    {
        let name: String = self.providers[0].name.clone();
        self.tried.push(name);
        proof {
            assert(self.tried.deep_view()
                =~= old(self).tried.deep_view().push(
                    old(self).deep_view().providers[0].name));
        }
        match class {
            AttemptClass::Success | AttemptClass::ClientError => {
                self.phase = Phase::Done;
                Step::ReturnCurrent
            },
            _ => {
                let held: bool = match class {
                    AttemptClass::ServerError | AttemptClass::TransportError => true,
                    _ => false,
                };
                if held {
                    self.has_last = true;
                }
                if self.providers.len() > 1 {
                    let n: usize = self.providers.len();
                    let mut reported: Vec<bool> = Vec::new();
                    reported.push(true);
                    let mut i: usize = 1;
                    while i < n
                        invariant
                            1 <= i <= n,
                            reported@.len() == i,
                            reported@[0],
                            forall|k: int| 1 <= k < i ==> !reported@[k],
                        decreases n - i,
                    {
                        reported.push(false);
                        i = i + 1;
                    }
                    self.reported = reported;
                    self.outstanding = n - 1;
                    self.phase = Phase::Racing;
                    proof {
                        let target = Seq::new(
                            old(self).deep_view().providers.len(),
                            |k: int| k == 0,
                        );
                        assert(self.reported@ =~= target);
                        lemma_reported_initial_count(self.reported@);
                    }
                    Step::RaceRest
                } else {
                    self.group_failed()
                }
            },
        }
    }

    /// Reports the class of one raced attempt's outcome, by the index of
    /// its provider in the resolved order. Raced outcomes arrive in
    /// completion order; each provider reports once.
    pub fn report_raced(&mut self, idx: usize, class: AttemptClass) -> (r: Step)
        requires
            old(self).deep_view().wf(),
            old(self).deep_view().phase is Racing,
            1 <= idx < old(self).deep_view().providers.len(),
            !old(self).deep_view().reported[idx as int],
        ensures
            (final(self).deep_view(), r)
                == old(self).deep_view().spec_report_raced(idx as int, class),
            final(self).deep_view().wf(),
    {
        let name: String = self.providers[idx].name.clone();
        self.tried.push(name);
        proof {
            assert(self.tried.deep_view()
                =~= old(self).tried.deep_view().push(
                    old(self).deep_view().providers[idx as int].name));
        }
        let flag: &mut bool = &mut self.reported[idx];
        *flag = true;
        proof {
            lemma_count_false_update(old(self).deep_view().reported, idx as int);
        }
        match class {
            AttemptClass::Success | AttemptClass::ClientError => {
                self.phase = Phase::Done;
                Step::ReturnCurrent
            },
            _ => {
                let held: bool = match class {
                    AttemptClass::ServerError | AttemptClass::TransportError => true,
                    _ => false,
                };
                if held {
                    self.has_last = true;
                }
                let outstanding_was: usize = self.outstanding;
                self.outstanding = outstanding_was - 1;
                if outstanding_was > 1 {
                    Step::Wait
                } else {
                    self.group_failed()
                }
            },
        }
    }

    /// The whole provider group of the current model has failed: follow
    /// the primary's fallback model if configured and within the depth
    /// cap, else finish with the held failure or exhaustion.
    fn group_failed(&mut self) -> (r: Step)
        requires
            old(self).deep_view().providers.len() > 0,
            0 <= old(self).deep_view().depth <= MAX_FALLBACK_DEPTH,
        ensures
            (final(self).deep_view(), r) == old(self).deep_view().spec_group_failed(),
            final(self).deep_view().wf(),
    {
        let has_fallback: bool = match &self.providers[0].fallback {
            Some(_) => true,
            None => false,
        };
        if has_fallback && self.depth < MAX_FALLBACK_DEPTH {
            let fallback: String = match &self.providers[0].fallback {
                Some(m) => m.clone(),
                None => vstd::pervasive::unreached(),
            };
            self.current_model = fallback;
            self.depth = self.depth + 1;
            self.phase = Phase::NeedResolve;
            Step::Resolve
        } else {
            self.phase = Phase::Done;
            if self.has_last {
                Step::ReturnLast
            } else {
                Step::FailExhausted
            }
        }
    }

    /// The model the machine is currently resolving or attempting.
    pub fn model<'a>(&'a self) -> (r: &'a String)
        ensures
            r@ == self.deep_view().current_model,
    {
        &self.current_model
    }

    /// The provider of the pending primary attempt.
    pub fn primary<'a>(&'a self) -> (r: &'a ClientConfig)
        requires
            self.deep_view().providers.len() > 0,
        ensures
            r.deep_view() == self.deep_view().providers[0],
    {
        &self.providers[0]
    }

    /// The provider at `idx` in the resolved order.
    pub fn provider_at<'a>(&'a self, idx: usize) -> (r: &'a ClientConfig)
        requires
            idx < self.deep_view().providers.len(),
        ensures
            r.deep_view() == self.deep_view().providers[idx as int],
    {
        &self.providers[idx]
    }

    /// How many providers the current model resolved to.
    pub fn provider_count(&self) -> (r: usize)
        ensures
            r == self.deep_view().providers.len(),
    {
        self.providers.len()
    }

    /// The names of the providers attempted so far, in attempt order.
    pub fn tried_names<'a>(&'a self) -> (r: &'a Vec<String>)
        ensures
            r.deep_view() == self.deep_view().tried,
    {
        &self.tried
    }
}

proof fn lemma_reported_initial_count(s: Seq<bool>)
    requires
        s.len() >= 1,
        s[0],
        forall|k: int| 1 <= k < s.len() ==> !s[k],
    ensures
        count_false(s) == s.len() - 1,
    decreases s.len(),
{
    let rest = s.subrange(1, s.len() as int);
    assert(forall|k: int| 0 <= k < rest.len() ==> rest[k] == s[k + 1] && !rest[k]);
    lemma_rest_all_false(rest);
    assert(count_false(s) == 0 + count_false(rest));
}

proof fn lemma_rest_all_false(s: Seq<bool>)
    requires
        forall|k: int| 0 <= k < s.len() ==> !s[k],
    ensures
        count_false(s) == s.len(),
    decreases s.len(),
{
    if s.len() > 0 {
        let rest = s.subrange(1, s.len() as int);
        assert(forall|k: int| 0 <= k < rest.len() ==> !rest[k]);
        lemma_rest_all_false(rest);
    }
}

/// Whether a step starts upstream work.
pub open spec fn issues_attempt(step: Step) -> bool {
    step is AttemptPrimary || step is RaceRest
}

/// A 4xx upstream answer is final: reporting `ClientError` for any
/// attempt, serial or raced, ends the machine with the response as is
/// and without starting another attempt; a finished machine accepts no
/// further report, so the upstream calls made for the request are
/// exactly those made up to and including the 4xx. (Every transition
/// that starts an attempt demands a live phase.) (law)
pub proof fn lemma_no_retry_on_client_error(d: DispatcherV, idx: int)
    ensures
        d.phase is AwaitPrimary ==> {
            let (next, step) = d.spec_report_primary(AttemptClass::ClientError);
            next.phase is Done && step == Step::ReturnCurrent && !issues_attempt(step)
        },
        d.phase is Racing ==> {
            let (next, step) = d.spec_report_raced(idx, AttemptClass::ClientError);
            next.phase is Done && step == Step::ReturnCurrent && !issues_attempt(step)
        },
{
}

/// A 2xx upstream answer is likewise final, with the response returned
/// as is and no further attempt started. (law)
pub proof fn lemma_success_is_final(d: DispatcherV, idx: int)
    ensures
        d.phase is AwaitPrimary ==> {
            let (next, step) = d.spec_report_primary(AttemptClass::Success);
            next.phase is Done && step == Step::ReturnCurrent && !issues_attempt(step)
        },
        d.phase is Racing ==> {
            let (next, step) = d.spec_report_raced(idx, AttemptClass::Success);
            next.phase is Done && step == Step::ReturnCurrent && !issues_attempt(step)
        },
{
}

} // verus!
