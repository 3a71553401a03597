//! The configuration in use, and the choice of an upstream.

use crate::config::{
    Endpoint, EndpointView, RuntimeConfig, RuntimeConfigView, WeightedCluster, WeightedClusterView,
};
use crate::error::{ConfigConflict, ConfigConflictView, DxgateError, DxgateErrorView};
use crate::routing::{healthy_among, is_healthy};
use vstd::prelude::*;
use vstd::string::*;

verus! {

/// The configuration in use, what is wrong with the one that was refused last,
/// and the number of choices made so far.
pub struct ProxyState {
    config: RuntimeConfig,
    conflicts: Vec<ConfigConflict>,
    ready: bool,
    picker_counter: u64,
}

/// What the state stands for.
#[verifier::ext_equal]
pub struct ProxyStateView {
    pub config: RuntimeConfigView,
    pub conflicts: Seq<ConfigConflictView>,
    pub ready: bool,
    pub picker_counter: u64,
}

impl DeepView for ProxyState {
    type V = ProxyStateView;

    closed spec fn deep_view(&self) -> ProxyStateView {
        ProxyStateView {
            config: self.config.deep_view(),
            conflicts: self.conflicts.deep_view(),
            ready: self.ready,
            picker_counter: self.picker_counter,
        }
    }
}

/// Whether the gateway is ready, with which configuration, and if not, why.
#[derive(Debug, PartialEq, Eq)]
pub struct Readiness {
    pub ready: bool,
    pub version: String,
    pub conflicts: Vec<ConfigConflict>,
}

/// What a report of readiness stands for.
#[verifier::ext_equal]
pub struct ReadinessView {
    pub ready: bool,
    pub version: Seq<char>,
    pub conflicts: Seq<ConfigConflictView>,
}

impl DeepView for Readiness {
    type V = ReadinessView;

    open spec fn deep_view(&self) -> ReadinessView {
        ReadinessView {
            ready: self.ready,
            version: self.version@,
            conflicts: self.conflicts.deep_view(),
        }
    }
}

impl Clone for Readiness {
    fn clone(&self) -> (copy: Self)
        ensures
            copy.deep_view() == self.deep_view(),
    {
        let conflicts: Vec<ConfigConflict> = self.conflicts.clone();
        assert(conflicts.deep_view() =~= self.conflicts.deep_view());
        Readiness { ready: self.ready, version: self.version.clone(), conflicts }
    }
}

/// The state before any configuration was applied.
pub open spec fn initial_state(config: RuntimeConfigView) -> ProxyStateView {
    ProxyStateView {
        config,
        conflicts: Seq::<ConfigConflictView>::empty(),
        ready: false,
        picker_counter: 0,
    }
}

/// The weight of the first `n` clusters.
pub open spec fn weight_before(clusters: Seq<WeightedClusterView>, n: int) -> nat
    decreases n,
{
    if n <= 0 {
        0
    } else {
        weight_before(clusters, n - 1) + clusters[n - 1].weight as nat
    }
}

/// The weight of all clusters.
pub open spec fn total_weight(clusters: Seq<WeightedClusterView>) -> nat {
    weight_before(clusters, clusters.len() as int)
}

/// The turn that a choice among weighted clusters takes, by the number of
/// choices made before it. Only the low half of that number counts.
pub open spec fn cluster_turn(counter: int, total: int) -> int {
    (counter % 0x1_0000_0000) % total
}

/// The place of the cluster that a turn belongs to: each cluster has as many
/// consecutive turns as its weight says.
pub open spec fn turn_owner(clusters: Seq<WeightedClusterView>, turn: int) -> int
    decreases clusters.len(),
{
    if clusters.len() <= 1 || turn >= weight_before(clusters, clusters.len() - 1) {
        clusters.len() - 1
    } else {
        turn_owner(clusters.drop_last(), turn)
    }
}

/// The place of the cluster that is chosen when so many choices were made
/// before. Where no cluster has weight, it is the first.
pub open spec fn chosen_cluster(clusters: Seq<WeightedClusterView>, counter: u64) -> int {
    if total_weight(clusters) == 0 {
        0
    } else {
        turn_owner(clusters, cluster_turn(counter as int, total_weight(clusters) as int))
    }
}

/// The number of choices after one more.
pub open spec fn counted(counter: u64) -> u64 {
    if counter == u64::MAX {
        0
    } else {
        (counter + 1) as u64
    }
}

/// The healthy endpoints.
pub open spec fn healthy(endpoints: Seq<EndpointView>) -> Seq<EndpointView> {
    endpoints.filter(is_healthy())
}

/// The place among `n` endpoints of the one that is chosen when so many choices
/// were made before.
pub open spec fn endpoint_turn(counter: u64, n: nat) -> int {
    (counter as usize) as int % n as int
}

impl ProxyStateView {
    /// The state after a configuration was offered. One with conflicts is
    /// refused: the one in use stays.
    pub open spec fn offered(self, config: RuntimeConfigView) -> ProxyStateView {
        if config.valid() {
            ProxyStateView {
                config,
                conflicts: Seq::<ConfigConflictView>::empty(),
                ready: true,
                ..self
            }
        } else {
            ProxyStateView { conflicts: config.conflicts(), ready: false, ..self }
        }
    }

    /// The state after one more choice.
    pub open spec fn after_choice(self) -> ProxyStateView {
        ProxyStateView { picker_counter: counted(self.picker_counter), ..self }
    }

    /// The report of readiness.
    pub open spec fn readiness(self) -> ReadinessView {
        ReadinessView {
            ready: self.ready,
            version: self.config.version,
            conflicts: self.conflicts,
        }
    }

    /// A gateway that is ready uses a configuration without conflicts and has
    /// none to report.
    pub open spec fn coherent(self) -> bool {
        self.ready ==> self.config.valid() && self.conflicts.len() == 0
    }
}

/// The weights of earlier clusters are part of those of more clusters.
pub proof fn lemma_weight_grows(clusters: Seq<WeightedClusterView>, a: int, b: int)
    requires
        0 <= a <= b <= clusters.len(),
    ensures
        weight_before(clusters, a) <= weight_before(clusters, b),
    decreases b - a,
{
    if a < b {
        lemma_weight_grows(clusters, a, b - 1);
    }
}

/// The weight of the first clusters depends on those alone.
proof fn lemma_weight_prefix(a: Seq<WeightedClusterView>, b: Seq<WeightedClusterView>, n: int)
    requires
        0 <= n <= a.len(),
        n <= b.len(),
        a.take(n) == b.take(n),
    ensures
        weight_before(a, n) == weight_before(b, n),
    decreases n,
{
    if n > 0 {
        assert(a[n - 1] == a.take(n)[n - 1]);
        assert(b[n - 1] == b.take(n)[n - 1]);
        assert(a.take(n - 1) =~= a.take(n).take(n - 1));
        assert(b.take(n - 1) =~= b.take(n).take(n - 1));
        lemma_weight_prefix(a, b, n - 1);
    }
}

/// A turn belongs to the one cluster whose share holds it.
pub proof fn lemma_turn_owner(clusters: Seq<WeightedClusterView>, turn: int, at: int)
    requires
        0 <= at < clusters.len(),
        weight_before(clusters, at) <= turn < weight_before(clusters, at + 1),
    ensures
        turn_owner(clusters, turn) == at,
    decreases clusters.len(),
{
    let last = clusters.len() - 1;
    if at < last {
        lemma_weight_grows(clusters, at + 1, last);
        let fewer = clusters.drop_last();
        assert(clusters.take(at) =~= fewer.take(at));
        assert(clusters.take(at + 1) =~= fewer.take(at + 1));
        lemma_weight_prefix(clusters, fewer, at);
        lemma_weight_prefix(clusters, fewer, at + 1);
        lemma_turn_owner(fewer, turn, at);
    }
}

impl ProxyState {
    /// A state with a first configuration, which does not make it ready.
    pub fn new(initial: RuntimeConfig) -> (state: Self)
        ensures
            state.deep_view() == initial_state(initial.deep_view()),
    {
        let state = ProxyState {
            config: initial,
            conflicts: Vec::new(),
            ready: false,
            picker_counter: 0,
        };
        assert(state.deep_view() =~= initial_state(initial.deep_view()));
        state
    }

    /// Offers a configuration. It is put to use where it has no conflicts;
    /// otherwise its conflicts are kept and returned.
    pub fn apply_config(&mut self, cfg: RuntimeConfig) -> (outcome: Result<
        (),
        Vec<ConfigConflict>,
    >)
        ensures
            final(self).deep_view() == old(self).deep_view().offered(cfg.deep_view()),
            match outcome {
                Ok(_) => cfg.deep_view().valid(),
                Err(conflicts) => !cfg.deep_view().valid() && conflicts.deep_view()
                    == cfg.deep_view().conflicts(),
            },
    {
        let ghost offer = cfg.deep_view();
        match cfg.validate() {
            Ok(()) => {
                self.config = cfg;
                self.conflicts.clear();
                self.ready = true;
                assert(self.deep_view() =~= old(self).deep_view().offered(offer));
                Ok(())
            },
            Err(conflicts) => {
                let kept: Vec<ConfigConflict> = conflicts.clone();
                assert(kept.deep_view() =~= conflicts.deep_view());
                self.conflicts = kept;
                self.ready = false;
                assert(self.deep_view() =~= old(self).deep_view().offered(offer));
                Err(conflicts)
            },
        }
    }

    /// The configuration in use.
    pub fn config(&self) -> (config: RuntimeConfig)
        ensures
            config.deep_view() == self.deep_view().config,
    {
        self.config.clone()
    }

    /// The report of readiness.
    pub fn readiness(&self) -> (readiness: Readiness)
        ensures
            readiness.deep_view() == self.deep_view().readiness(),
    {
        let conflicts: Vec<ConfigConflict> = self.conflicts.clone();
        assert(conflicts.deep_view() =~= self.conflicts.deep_view());
        Readiness { ready: self.ready, version: self.config.version.clone(), conflicts }
    }

    /// Chooses one of some weighted clusters, by turns in proportion to their
    /// weights. Where none has weight, the first is chosen out of turn.
    pub fn pick_cluster<'a>(&mut self, clusters: &'a [WeightedCluster]) -> (picked: Option<
        &'a WeightedCluster,
    >)
        requires
            total_weight(clusters.deep_view()) <= u32::MAX,
        ensures
            match picked {
                Some(cluster) => {
                    let place = chosen_cluster(
                        clusters.deep_view(),
                        old(self).deep_view().picker_counter,
                    );
                    0 <= place < clusters.deep_view().len() && cluster.deep_view()
                        == clusters.deep_view()[place]
                },
                None => clusters.deep_view().len() == 0,
            },
            final(self).deep_view() == if total_weight(clusters.deep_view()) == 0 {
                old(self).deep_view()
            } else {
                old(self).deep_view().after_choice()
            },
    {
        let ghost all = clusters.deep_view();
        let mut total: u32 = 0;
        let mut i: usize = 0;
        while i < clusters.len()
            invariant
                i <= clusters.len(),
                all == clusters.deep_view(),
                total_weight(all) <= u32::MAX,
                total == weight_before(all, i as int),
            decreases clusters.len() - i,
        {
            proof {
                assert(all[i as int] == clusters@[i as int].deep_view());
                lemma_weight_grows(all, i as int + 1, all.len() as int);
            }
            total = total + clusters[i].weight;
            i += 1;
        }
        if total == 0 {
            if clusters.len() == 0 {
                return None;
            }
            assert(all[0] == clusters@[0].deep_view());
            return Some(&clusters[0]);
        }
        let counter: u64 = self.picker_counter;
        let next: u32 = (counter % 0x1_0000_0000) as u32 % total;
        self.picker_counter = counter.wrapping_add(1);
        let mut cursor: u32 = 0;
        let mut k: usize = 0;
        while k < clusters.len()
            invariant
                k <= clusters.len(),
                all == clusters.deep_view(),
                total_weight(all) == total,
                total > 0,
                next == cluster_turn(counter as int, total as int),
                next < total,
                counter == old(self).deep_view().picker_counter,
                self.deep_view() == old(self).deep_view().after_choice(),
                cursor == weight_before(all, k as int),
                cursor <= next,
            decreases clusters.len() - k,
        {
            proof {
                assert(all[k as int] == clusters@[k as int].deep_view());
                lemma_weight_grows(all, k as int + 1, all.len() as int);
            }
            cursor = cursor + clusters[k].weight;
            if next < cursor {
                proof {
                    lemma_turn_owner(all, next as int, k as int);
                }
                return Some(&clusters[k]);
            }
            k += 1;
        }
        None
    }

    /// Chooses one of the healthy endpoints, by turns.
    pub fn pick_endpoint<'a>(&mut self, cluster_name: &str, endpoints: &'a [Endpoint]) -> (picked:
        Result<&'a Endpoint, DxgateError>)
        ensures
            match picked {
                Ok(endpoint) => {
                    let able = healthy(endpoints.deep_view());
                    let place = endpoint_turn(old(self).deep_view().picker_counter, able.len());
                    0 <= place < able.len() && endpoint.deep_view() == able[place]
                },
                Err(error) => healthy(endpoints.deep_view()).len() == 0 && error.deep_view()
                    == DxgateErrorView::NoHealthyEndpoints(cluster_name@),
            },
            final(self).deep_view() == if healthy(endpoints.deep_view()).len() == 0 {
                old(self).deep_view()
            } else {
                old(self).deep_view().after_choice()
            },
    {
        let able: Vec<&'a Endpoint> = healthy_among(endpoints);
        let ghost view = able.deep_view();
        assert(view.len() == able.len());
        if able.len() == 0 {
            return Err(DxgateError::NoHealthyEndpoints(cluster_name.to_owned()));
        }
        let counter: u64 = self.picker_counter;
        self.picker_counter = counter.wrapping_add(1);
        let place: usize = (counter as usize) % able.len();
        assert(view[place as int] == able@[place as int].deep_view());
        Ok(able[place])
    }
}

} // verus!
