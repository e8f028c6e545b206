//! Resource configuration and the one-shot normalizer that fills in the
//! default stop ordering (the reversed start ordering) and the default
//! fallback action (the no-op command `true`).

use vstd::prelude::*;

verus! {

/// Configuration for one named resource: an ordered list of start actions,
/// an ordered list of stop actions, and a single fallback action that is
/// retried forever when stopping fails.
pub struct PromoterOptResource {
    pub start: Vec<String>,
    pub stop: Vec<String>,
    pub on_stop_failure: String,
}

/// Mathematical model of a resource configuration: action strings as
/// character sequences.
#[verifier::ext_equal]
pub struct ResView {
    pub start: Seq<Seq<char>>,
    pub stop: Seq<Seq<char>>,
    pub on_stop_failure: Seq<char>,
}

impl View for PromoterOptResource {
    type V = ResView;

    open spec fn view(&self) -> ResView {
        ResView {
            start: self.start.deep_view(),
            stop: self.stop.deep_view(),
            on_stop_failure: self.on_stop_failure@,
        }
    }
}

impl DeepView for PromoterOptResource {
    type V = ResView;

    open spec fn deep_view(&self) -> ResView {
        self.view()
    }
}

/// The full configuration: resource name to resource configuration, in
/// declaration order.  Lookups take the first entry with a matching name.
pub struct PromoterOpt {
    pub resources: Vec<(String, PromoterOptResource)>,
}

impl View for PromoterOpt {
    type V = Seq<(Seq<char>, ResView)>;

    open spec fn view(&self) -> Seq<(Seq<char>, ResView)> {
        self.resources.deep_view()
    }
}

/// What normalization does to one resource: an empty stop list becomes the
/// reversed start list, and an empty fallback action becomes the no-op
/// command `true`.
pub open spec fn spec_normalize_res(r: ResView) -> ResView {
    ResView {
        start: r.start,
        stop: if r.stop.len() == 0 {
            r.start.reverse()
        } else {
            r.stop
        },
        on_stop_failure: if r.on_stop_failure.len() == 0 {
            "true"@
        } else {
            r.on_stop_failure
        },
    }
}

/// What normalization does to the whole configuration: every resource is
/// normalized, names and order are untouched.
pub open spec fn spec_normalize(cfg: Seq<(Seq<char>, ResView)>) -> Seq<(Seq<char>, ResView)> {
    cfg.map_values(|e: (Seq<char>, ResView)| (e.0, spec_normalize_res(e.1)))
}

/// A configuration is normalized when normalizing it changes nothing.
pub open spec fn spec_is_normalized(cfg: Seq<(Seq<char>, ResView)>) -> bool {
    spec_normalize(cfg) == cfg
}

fn clone_strings(v: &Vec<String>) -> (r: Vec<String>)
    ensures
        r@ == v@,
{
    let mut r: Vec<String> = Vec::new();
    let mut i: usize = 0;
    while i < v.len()
        invariant
            i <= v.len(),
            r@ == v@.take(i as int),
        decreases v.len() - i,
    {
        r.push(v[i].clone());
        i = i + 1;
        proof {
            assert(r@ =~= v@.take(i as int));
        }
    }
    proof {
        assert(v@.take(v@.len() as int) =~= v@);
    }
    r
}

fn reversed(v: &Vec<String>) -> (r: Vec<String>)
    ensures
        r@.len() == v@.len(),
        forall|i: int| 0 <= i < v@.len() ==> r@[i] == v@[v@.len() - 1 - i],
{
    let mut r: Vec<String> = Vec::new();
    let mut i: usize = v.len();
    while i > 0
        invariant
            i <= v.len(),
            r@.len() == v@.len() - i,
            forall|k: int| 0 <= k < r@.len() ==> r@[k] == v@[v@.len() - 1 - k],
        decreases i,
    {
        i = i - 1;
        r.push(v[i].clone());
    }
    r
}

/// Normalizes one resource configuration, as [`spec_normalize_res`] states.
pub fn normalize_resource(r: &PromoterOptResource) -> (res: PromoterOptResource)
    ensures
        res@ == spec_normalize_res(r@),
{
    let stop = if r.stop.len() == 0 {
        reversed(&r.start)
    } else {
        clone_strings(&r.stop)
    };
    let on_stop_failure = if r.on_stop_failure.as_str().is_empty() {
        "true".to_owned()
    } else {
        r.on_stop_failure.clone()
    };
    let res = PromoterOptResource { start: clone_strings(&r.start), stop, on_stop_failure };
    proof {
        if r.stop.deep_view().len() == 0 {
            assert(res@.stop =~= r@.start.reverse());
        } else {
            assert(res@.stop =~= r@.stop);
        }
        assert(res@.start =~= r@.start);
    }
    res
}

/// Normalizes every resource of a configuration, as [`spec_normalize`]
/// states.  This is the one-shot transform run before any event is
/// consumed; the result is meant to stay immutable afterwards.
pub fn normalize_config(cfg: &PromoterOpt) -> (r: PromoterOpt)
    ensures
        r@ == spec_normalize(cfg@),
{
    let mut resources: Vec<(String, PromoterOptResource)> = Vec::new();
    let mut i: usize = 0;
    while i < cfg.resources.len()
        invariant
            i <= cfg.resources.len(),
            resources@.len() == i,
            forall|k: int| 0 <= k < i ==> resources.deep_view()[k] == spec_normalize(cfg@)[k],
        decreases cfg.resources.len() - i,
    {
        let name = cfg.resources[i].0.clone();
        let res = normalize_resource(&cfg.resources[i].1);
        proof {
            assert((name, res).deep_view() == spec_normalize(cfg@)[i as int]);
        }
        let ghost before = resources.deep_view();
        resources.push((name, res));
        i = i + 1;
        proof {
            assert forall|k: int| 0 <= k < i implies resources.deep_view()[k] == spec_normalize(
                cfg@,
            )[k] by {
                if k < i - 1 {
                    assert(resources.deep_view()[k] == before[k]);
                }
            }
        }
    }
    proof {
        assert(resources.deep_view() =~= spec_normalize(cfg@));
    }
    PromoterOpt { resources }
}

/// Index of the first entry whose name matches, or -1 when none does.
pub open spec fn spec_find(cfg: Seq<(Seq<char>, ResView)>, name: Seq<char>) -> int
    decreases cfg.len(),
{
    if cfg.len() == 0 {
        -1
    } else if cfg[0].0 == name {
        0
    } else {
        let rest = spec_find(cfg.drop_first(), name);
        if rest < 0 {
            -1
        } else {
            rest + 1
        }
    }
}

/// The found index is in range and matches; every earlier entry does not.
pub proof fn lemma_find_properties(cfg: Seq<(Seq<char>, ResView)>, name: Seq<char>)
    ensures
        spec_find(cfg, name) >= 0 ==> {
            &&& spec_find(cfg, name) < cfg.len()
            &&& cfg[spec_find(cfg, name)].0 == name
            &&& forall|k: int| 0 <= k < spec_find(cfg, name) ==> cfg[k].0 != name
        },
        spec_find(cfg, name) < 0 ==> forall|k: int| 0 <= k < cfg.len() ==> cfg[k].0 != name,
    decreases cfg.len(),
{
    if cfg.len() > 0 && cfg[0].0 != name {
        lemma_find_properties(cfg.drop_first(), name);
        assert(forall|k: int| 0 <= k < cfg.len() - 1 ==> cfg.drop_first()[k] == cfg[k + 1]);
        let rest = spec_find(cfg.drop_first(), name);
        if rest >= 0 {
            assert forall|k: int| 0 <= k < spec_find(cfg, name) implies cfg[k].0 != name by {
                if k > 0 {
                    assert(cfg.drop_first()[k - 1].0 != name);
                }
            }
        } else {
            assert forall|k: int| 0 <= k < cfg.len() implies cfg[k].0 != name by {
                if k > 0 {
                    assert(cfg.drop_first()[k - 1].0 != name);
                }
            }
        }
    }
}

/// A name is configured when some entry carries it.
pub open spec fn spec_configured(cfg: Seq<(Seq<char>, ResView)>, name: Seq<char>) -> bool {
    spec_find(cfg, name) >= 0
}

/// Finds the first resource entry with the given name, as [`spec_find`]
/// states.
pub fn lookup(cfg: &PromoterOpt, name: &String) -> (r: Option<usize>)
    ensures
        match r {
            Some(i) => i == spec_find(cfg@, name@) && i < cfg.resources.len(),
            None => spec_find(cfg@, name@) == -1,
        },
{
    let mut i: usize = 0;
    while i < cfg.resources.len()
        invariant
            i <= cfg.resources.len(),
            forall|k: int| 0 <= k < i ==> cfg@[k].0 != name@,
        decreases cfg.resources.len() - i,
    {
        if cfg.resources[i].0 == *name {
            proof {
                lemma_find_unique(cfg@, name@, i as int);
            }
            return Some(i);
        }
        i = i + 1;
    }
    proof {
        lemma_find_properties(cfg@, name@);
        if spec_find(cfg@, name@) >= 0 {
            assert(cfg@[spec_find(cfg@, name@)].0 == name@);
            assert(false);
        }
    }
    None
}

/// A matching index with no earlier match is exactly what `spec_find`
/// returns.
proof fn lemma_find_unique(cfg: Seq<(Seq<char>, ResView)>, name: Seq<char>, i: int)
    requires
        0 <= i < cfg.len(),
        cfg[i].0 == name,
        forall|k: int| 0 <= k < i ==> cfg[k].0 != name,
    ensures
        spec_find(cfg, name) == i,
    decreases cfg.len(),
{
    if i > 0 {
        assert(cfg[0].0 != name);
        assert(forall|k: int| 0 <= k < i - 1 ==> cfg.drop_first()[k] == cfg[k + 1]);
        lemma_find_unique(cfg.drop_first(), name, i - 1);
    }
}

/// Law: a resource with a non-empty start list and an empty stop list is
/// normalized to stop actions that are the start actions reversed,
/// element for element.
pub proof fn lemma_default_stop_is_reversed_start(r: ResView)
    requires
        r.stop.len() == 0,
    ensures
        spec_normalize_res(r).stop.len() == r.start.len(),
        forall|i: int|
            0 <= i < r.start.len() ==> spec_normalize_res(r).stop[i] == r.start[r.start.len() - 1
                - i],
{
}

/// Law: a resource with an empty fallback action is normalized to the
/// no-op command `true`, whose execution the service environment
/// guarantees to succeed; so the executor never meets an absent fallback.
pub proof fn lemma_default_fallback_is_noop(r: ResView)
    requires
        r.on_stop_failure.len() == 0,
    ensures
        spec_normalize_res(r).on_stop_failure == "true"@,
{
}

/// Law: normalization is a one-shot transform: normalizing an already
/// normalized configuration changes nothing, so the configuration can
/// stay immutable for the life of the process.
pub proof fn lemma_normalize_idempotent(cfg: Seq<(Seq<char>, ResView)>)
    ensures
        spec_is_normalized(spec_normalize(cfg)),
{
    reveal_strlit("true");
    assert forall|i: int| 0 <= i < cfg.len() implies #[trigger] spec_normalize(spec_normalize(cfg))[i]
        == spec_normalize(cfg)[i] by {
        let r = cfg[i].1;
        let n = spec_normalize_res(r);
        if n.stop.len() == 0 {
            assert(r.start.reverse().len() == r.start.len());
            assert(n.start.reverse() =~= n.stop);
        }
        assert("true"@.len() == 4);
        assert(spec_normalize_res(n) =~= n);
    }
    assert(spec_normalize(spec_normalize(cfg)) =~= spec_normalize(cfg));
}

/// Law: normalization keeps every name, the order of entries, and every
/// start list exactly as configured.
pub proof fn lemma_normalize_preserves_names_and_start(cfg: Seq<(Seq<char>, ResView)>)
    ensures
        spec_normalize(cfg).len() == cfg.len(),
        forall|i: int| 0 <= i < cfg.len() ==> #[trigger] spec_normalize(cfg)[i].0 == cfg[i].0,
        forall|i: int| 0 <= i < cfg.len() ==> #[trigger] spec_normalize(cfg)[i].1.start == cfg[i].1.start,
{
}

} // verus!
