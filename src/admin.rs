//! Rule submission: a bundle is validated, checked against the flight
//! registry, and then handed to every parser shard, each of which holds a
//! full copy of the rules. Batches are dispatched to one shard each.
use vstd::prelude::*;

use crate::batch::RecordBatchWrapper;
use crate::dispatch::{sticky_shard, DispatchStrategy, Dispatcher};
use crate::enrich::{apply_rules_spec, ParsingActor, RuleError};
use crate::flight_registry::{tenant_known, CheckFlight, FlightRegistry, RegistryError};
use crate::pattern::{
    first_rule_error, request_check, validate_request, GrokPattern, Pattern, PatternError,
    RegexPattern, RegexRequest,
};

verus! {

/// Outcome of submitting a rule bundle.
#[derive(Debug, Clone, Copy, PartialEq, Eq, Structural)]
pub enum SubmitOutcome {
    /// Validated and handed to every shard.
    Accepted,
    /// The request is invalid.
    Invalid(PatternError),
    /// The tenant has no flight.
    TenantNotFound,
    /// The tenant does not have this flight.
    FlightUnknown,
}

impl SubmitOutcome {
    /// HTTP status of the outcome.
    pub fn http_status(&self) -> (r: u16)
        ensures
            *self == SubmitOutcome::Accepted ==> r == 200,
            *self is Invalid ==> r == 400,
            *self == SubmitOutcome::TenantNotFound ==> r == 404,
            *self == SubmitOutcome::FlightUnknown ==> r == 409,
    {
        match self {
            SubmitOutcome::Accepted => 200,
            SubmitOutcome::Invalid(_) => 400,
            SubmitOutcome::TenantNotFound => 404,
            SubmitOutcome::FlightUnknown => 409,
        }
    }
}

fn clone_opt_string(o: &Option<String>) -> (r: Option<String>)
    ensures
        r == *o,
{
    match o {
        Some(s) => Some(s.clone()),
        None => None,
    }
}

pub fn clone_pattern(p: &Pattern) -> (r: Pattern)
    ensures
        r == *p,
{
    match p {
        Pattern::RegexPattern(rp) => Pattern::RegexPattern(
            RegexPattern {
                override_field: clone_opt_string(&rp.override_field),
                field: rp.field.clone(),
                pattern_string: rp.pattern_string.clone(),
            },
        ),
        Pattern::GrokPattern(gp) => Pattern::GrokPattern(
            GrokPattern {
                override_field: clone_opt_string(&gp.override_field),
                field: gp.field.clone(),
                pattern_string: gp.pattern_string.clone(),
            },
        ),
    }
}

/// A copy of a rule bundle, rule for rule.
pub fn clone_request(req: &RegexRequest) -> (r: RegexRequest)
    ensures
        r.name@ == req.name@,
        r.tenant@ == req.tenant@,
        r.flight_id@ == req.flight_id@,
        r.log_group@ == req.log_group@,
        r.pattern@ == req.pattern@,
{
    let mut pattern: Vec<Pattern> = Vec::new();
    let mut i: usize = 0;
    while i < req.pattern.len()
        invariant
            0 <= i <= req.pattern@.len(),
            pattern@ == req.pattern@.take(i as int),
        decreases req.pattern@.len() - i,
    {
        pattern.push(clone_pattern(&req.pattern[i]));
        i = i + 1;
        assert(pattern@ =~= req.pattern@.take(i as int));
    }
    assert(req.pattern@.take(i as int) =~= req.pattern@);
    RegexRequest {
        name: req.name.clone(),
        tenant: req.tenant.clone(),
        flight_id: req.flight_id.clone(),
        log_group: req.log_group.clone(),
        pattern,
    }
}

/// The parser shards and the dispatcher in front of them.
pub struct Broadcaster {
    shards: Vec<ParsingActor>,
    dispatcher: Dispatcher,
}

impl Broadcaster {
    pub closed spec fn wf(&self) -> bool {
        &&& self.dispatcher.wf()
        &&& self.dispatcher.shards_spec() == self.shards@.len()
        &&& forall|i: int| 0 <= i < self.shards@.len() ==> (#[trigger] self.shards@[i]).wf()
    }

    /// The rules each shard holds.
    pub closed spec fn shard_rules(&self) -> Seq<Map<Seq<char>, Seq<crate::pattern::Pattern>>> {
        self.shards@.map_values(|s: ParsingActor| s.rules())
    }

    pub closed spec fn strategy_spec(&self) -> DispatchStrategy {
        self.dispatcher.strategy_spec()
    }

    /// The shard the next round-robin dispatch picks.
    pub closed spec fn next_spec(&self) -> usize {
        self.dispatcher.next_spec()
    }

    /// `shards` shards without rules; none when there is no shard.
    pub fn new(shards: usize, strategy: DispatchStrategy) -> (r: Option<Self>)
        ensures
            r is None <==> shards == 0,
            r matches Some(b) ==> b.wf() && b.shard_rules().len() == shards && b.strategy_spec()
                == strategy && b.next_spec() == 0 && forall|i: int|
                0 <= i < shards ==> #[trigger] b.shard_rules()[i] == Map::<
                    Seq<char>,
                    Seq<Pattern>,
                >::empty(),
    {
        let dispatcher = match Dispatcher::new(shards, strategy) {
            Some(d) => d,
            None => {
                return None;
            },
        };
        let mut v: Vec<ParsingActor> = Vec::new();
        let mut i: usize = 0;
        while i < shards
            invariant
                0 <= i <= shards,
                v@.len() == i,
                forall|j: int| 0 <= j < i ==> (#[trigger] v@[j]).wf() && v@[j].rules() == Map::<
                    Seq<char>,
                    Seq<Pattern>,
                >::empty(),
            decreases shards - i,
        {
            v.push(ParsingActor::new());
            i = i + 1;
        }
        Some(Broadcaster { shards: v, dispatcher })
    }

    /// Validates a rule bundle, checks that the tenant has the flight, and
    /// hands the rules to every shard. Anything but `Accepted` changes nothing.
    pub fn submit_new_pattern(&mut self, registry: &FlightRegistry, req: RegexRequest) -> (r:
        SubmitOutcome)
        requires
            old(self).wf(),
            registry.wf(),
        ensures
            final(self).wf(),
            final(self).strategy_spec() == old(self).strategy_spec(),
            final(self).next_spec() == old(self).next_spec(),
            request_check(req.name@, req.pattern@) matches Some(e) ==> r == SubmitOutcome::Invalid(
                e,
            ),
            request_check(req.name@, req.pattern@) is None && !tenant_known(
                registry.view(),
                req.tenant@,
            ) ==> r == SubmitOutcome::TenantNotFound,
            request_check(req.name@, req.pattern@) is None && tenant_known(
                registry.view(),
                req.tenant@,
            ) && !registry.view().contains_key((req.tenant@, req.flight_id@)) ==> r
                == SubmitOutcome::FlightUnknown,
            request_check(req.name@, req.pattern@) is None && registry.view().contains_key(
                (req.tenant@, req.flight_id@),
            ) ==> r == SubmitOutcome::Accepted,
            r != SubmitOutcome::Accepted ==> final(self).shard_rules() == old(self).shard_rules(),
            r == SubmitOutcome::Accepted ==> {
                &&& request_check(req.name@, req.pattern@) is None
                &&& registry.view().contains_key((req.tenant@, req.flight_id@))
                &&& final(self).shard_rules().len() == old(self).shard_rules().len()
                &&& forall|i: int|
                    #![trigger final(self).shard_rules()[i]]
                    0 <= i < old(self).shard_rules().len() ==> final(self).shard_rules()[i] == old(
                        self,
                    ).shard_rules()[i].insert(req.flight_id@, req.pattern@)
            },
    {
        match validate_request(&req) {
            Err(e) => {
                return SubmitOutcome::Invalid(e);
            },
            Ok(()) => {},
        }
        let check = CheckFlight { team_id: req.tenant.clone(), flight: req.flight_id.clone() };
        match registry.check_flight(&check) {
            Err(_) => {
                return SubmitOutcome::TenantNotFound;
            },
            Ok(false) => {
                return SubmitOutcome::FlightUnknown;
            },
            Ok(true) => {},
        }
        let ghost old_rules = self.shard_rules();
        let n = self.shards.len();
        let mut i: usize = 0;
        while i < n
            invariant
                n == self.shards@.len(),
                0 <= i <= n,
                self.dispatcher == old(self).dispatcher,
                self.wf(),
                first_rule_error(req.pattern@) is None,
                old_rules.len() == n,
                forall|j: int| 0 <= j < i ==> #[trigger] self.shard_rules()[j] == old_rules[j].insert(
                    req.flight_id@,
                    req.pattern@,
                ),
                forall|j: int| i <= j < n ==> #[trigger] self.shard_rules()[j] == old_rules[j],
            decreases n - i,
        {
            let copy = clone_request(&req);
            let ghost before = self.shards@;
            let ghost before_rules = self.shard_rules();
            let mut shard = self.shards.remove(i);
            assert(shard == before[i as int]);
            assert(before_rules[i as int] == shard.rules());
            let _ = shard.update_patterns(copy);
            let ghost updated = shard.rules();
            self.shards.insert(i, shard);
            proof {
                assert(updated == old_rules[i as int].insert(req.flight_id@, req.pattern@));
                assert forall|j: int| 0 <= j < n implies #[trigger] self.shard_rules()[j] == if j
                    == i {
                    updated
                } else {
                    before_rules[j]
                } by {
                    assert(self.shard_rules()[j] == self.shards@[j].rules());
                    if j != i {
                        assert(self.shards@[j] == before[j]);
                        assert(before_rules[j] == before[j].rules());
                    }
                }
                assert forall|j: int| 0 <= j < n implies #[trigger] self.shards@[j] == if j == i {
                    shard
                } else {
                    before[j]
                } by {}
                assert forall|j: int| 0 <= j < self.shards@.len() implies (
                #[trigger] self.shards@[j]).wf() by {
                    if j != i {
                        assert(self.shards@[j] == before[j]);
                    }
                }
            }
            i = i + 1;
        }
        SubmitOutcome::Accepted
    }

    /// Picks the batch's shard and enriches the batch there.
    pub fn dispatch(&mut self, record: RecordBatchWrapper) -> (r: (usize, RecordBatchWrapper, Vec<RuleError>))
        requires
            old(self).wf(),
            record.data.wf(),
        ensures
            final(self).wf(),
            final(self).shard_rules() == old(self).shard_rules(),
            final(self).strategy_spec() == old(self).strategy_spec(),
            r.0 < old(self).shard_rules().len(),
            old(self).strategy_spec() == DispatchStrategy::RoundRobin ==> r.0 == old(self).next_spec()
                && final(self).next_spec() == (old(self).next_spec() + 1) % (old(
                self,
            ).shard_rules().len() as int),
            old(self).strategy_spec() == DispatchStrategy::Sticky ==> r.0 == sticky_shard(
                record.metadata.flight@,
                old(self).shard_rules().len() as usize,
            ),
            r.1.metadata == record.metadata,
            r.1.data.wf(),
            r.1.data.rows() == record.data.rows(),
            !old(self).shard_rules()[r.0 as int].contains_key(record.metadata.flight@)
                ==> r.1.data.view() == record.data.view() && r.2@.len() == 0,
            old(self).shard_rules()[r.0 as int].contains_key(record.metadata.flight@) ==> (
                r.1.data.view(),
                r.2@,
            ) == apply_rules_spec(
                record.data.view(),
                old(self).shard_rules()[r.0 as int][record.metadata.flight@],
            ),
    {
        let i = self.dispatcher.pick_shard(record.metadata.flight.as_str());
        let (out, errors) = self.shards[i].process(record);
        (i, out, errors)
    }
}

} // verus!
