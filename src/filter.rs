use vstd::prelude::*;

use crate::directive::{parse_directives, parse_spec, Directive, DirectiveModel};
use crate::profile::{spec_static_max_level, static_max_level, BuildProfile};
use crate::severity::{passes, rank, spec_passes, Severity};
use crate::text::chars_of;

verus! {

/// A minimum severity for the modules whose path starts with `module`.
#[derive(Clone, Debug)]
pub struct ModuleLevel {
    pub module: Vec<char>,
    pub level: Severity,
}

/// The resolved levels of a logger: a global level, and module-scoped
/// overrides in the order in which they were given.
#[derive(Clone, Debug)]
pub struct LevelFilter {
    pub global: Severity,
    pub overrides: Vec<ModuleLevel>,
}

/// The mathematical value of a level filter.
pub struct FilterModel {
    pub global: Severity,
    pub overrides: Seq<(Seq<char>, Severity)>,
}

impl View for LevelFilter {
    type V = FilterModel;

    open spec fn view(&self) -> FilterModel {
        FilterModel {
            global: self.global,
            overrides: self.overrides@.map_values(|o: ModuleLevel| (o.module@, o.level)),
        }
    }
}

/// Whether `scope` is a prefix of `module`.
pub open spec fn scope_matches(scope: Seq<char>, module: Seq<char>) -> bool {
    scope.len() <= module.len() && module.take(scope.len() as int) == scope
}

/// The override that applies to `module`: among those whose scope matches it,
/// the last of those with the longest scope.
pub open spec fn best_override(ovs: Seq<(Seq<char>, Severity)>, module: Seq<char>) -> Option<int>
    decreases ovs.len(),
{
    if ovs.len() == 0 {
        None
    } else {
        let b = best_override(ovs.drop_last(), module);
        if scope_matches(ovs.last().0, module) && (b is None || ovs[b->Some_0].0.len()
            <= ovs.last().0.len()) {
            Some(ovs.len() - 1)
        } else {
            b
        }
    }
}

/// The level that gates records of `module`: that of the applicable override,
/// else the global level.
pub open spec fn applicable_level(f: FilterModel, module: Seq<char>) -> Severity {
    match best_override(f.overrides, module) {
        Some(i) => f.overrides[i].1,
        None => f.global,
    }
}

/// The filter that a list of directives gives on top of `base`: the last
/// global directive sets the global level (else `base` stands), and the
/// module-scoped ones become overrides in order.
pub open spec fn resolve(base: Severity, ds: Seq<DirectiveModel>) -> FilterModel
    decreases ds.len(),
{
    if ds.len() == 0 {
        FilterModel { global: base, overrides: Seq::empty() }
    } else {
        let f = resolve(base, ds.drop_last());
        match ds.last().module {
            None => FilterModel { global: ds.last().level, overrides: f.overrides },
            Some(m) => FilterModel { global: f.global, overrides: f.overrides.push((m, ds.last().level)) },
        }
    }
}

/// Whether a record of severity `sev` from `module` passes the filter.
pub open spec fn spec_enabled(f: FilterModel, sev: Severity, module: Seq<char>) -> bool {
    spec_passes(sev, applicable_level(f, module))
}

proof fn lemma_best_in_range(ovs: Seq<(Seq<char>, Severity)>, module: Seq<char>)
    ensures
        best_override(ovs, module) matches Some(i) ==> 0 <= i < ovs.len() && scope_matches(
            ovs[i].0,
            module,
        ),
    decreases ovs.len(),
{
    if ovs.len() > 0 {
        lemma_best_in_range(ovs.drop_last(), module);
    }
}

/// Whether the scope `scope` is a prefix of `module`.
pub fn is_prefix(scope: &Vec<char>, module: &Vec<char>) -> (r: bool)
    ensures
        r == scope_matches(scope@, module@),
{
    if scope.len() > module.len() {
        return false;
    }
    let mut i: usize = 0;
    while i < scope.len()
        invariant
            scope@.len() <= module@.len(),
            0 <= i <= scope@.len(),
            forall|j: int| 0 <= j < i ==> scope@[j] == module@[j],
        decreases scope@.len() - i,
    {
        if scope[i] != module[i] {
            assert(module@.take(scope@.len() as int)[i as int] != scope@[i as int]);
            return false;
        }
        i = i + 1;
    }
    assert(module@.take(scope@.len() as int) =~= scope@);
    true
}

impl LevelFilter {
    /// Merges directives, in order, on top of the level `base`.
    pub fn from_directives(base: Severity, directives: &Vec<Directive>) -> (r: LevelFilter)
        ensures
            r@ == resolve(base, directives@.map_values(|d: Directive| d@)),
    {
        let ghost ds = directives@.map_values(|d: Directive| d@);
        let mut global = base;
        let mut overrides: Vec<ModuleLevel> = Vec::new();
        let mut i: usize = 0;
        proof {
            assert(ds.take(0) =~= Seq::<DirectiveModel>::empty());
            assert(overrides@.map_values(|o: ModuleLevel| (o.module@, o.level)) =~= Seq::<
                (Seq<char>, Severity),
            >::empty());
        }
        while i < directives.len()
            invariant
                0 <= i <= directives@.len(),
                ds == directives@.map_values(|d: Directive| d@),
                (LevelFilter { global, overrides })@ == resolve(base, ds.take(i as int)),
            decreases directives@.len() - i,
        {
            proof {
                assert(ds.take(i + 1).drop_last() =~= ds.take(i as int));
            }
            let d = &directives[i];
            match &d.module {
                None => {
                    global = d.level;
                },
                Some(m) => {
                    let ghost before = overrides@;
                    overrides.push(ModuleLevel { module: m.clone(), level: d.level });
                    proof {
                        assert(overrides@.map_values(|o: ModuleLevel| (o.module@, o.level))
                            =~= before.map_values(|o: ModuleLevel| (o.module@, o.level)).push(
                            (m@, d.level),
                        ));
                    }
                },
            }
            i = i + 1;
        }
        proof {
            assert(ds.take(ds.len() as int) =~= ds);
        }
        LevelFilter { global, overrides }
    }

    /// The level that gates records of `module`.
    pub fn level_for(&self, module: &Vec<char>) -> (r: Severity)
        ensures
            r == applicable_level(self@, module@),
    {
        let ghost ovs = self@.overrides;
        let mut best: Option<usize> = None;
        let mut i: usize = 0;
        while i < self.overrides.len()
            invariant
                0 <= i <= self.overrides@.len(),
                ovs == self@.overrides,
                best_override(ovs.take(i as int), module@) == match best {
                    Some(b) => Some(b as int),
                    None => None::<int>,
                },
                best matches Some(b) ==> b < i,
            decreases self.overrides@.len() - i,
        {
            proof {
                assert(ovs.take(i + 1).drop_last() =~= ovs.take(i as int));
            }
            let o = &self.overrides[i];
            if is_prefix(&o.module, module) {
                let longer = match best {
                    None => true,
                    Some(b) => self.overrides[b].module.len() <= o.module.len(),
                };
                if longer {
                    best = Some(i);
                }
            }
            i = i + 1;
        }
        proof {
            assert(ovs.take(ovs.len() as int) =~= ovs);
        }
        match best {
            Some(b) => self.overrides[b].level,
            None => self.global,
        }
    }

    /// Whether a record of severity `sev` from the module at path `module`
    /// passes: iff it is at or above the applicable level, and never when it
    /// or that level is `Off`.
    pub fn enabled(&self, sev: Severity, module: &str) -> (r: bool)
        ensures
            r == spec_enabled(self@, sev, module@),
    {
        let m = chars_of(module);
        passes(sev, self.level_for(&m))
    }
}

/// The filter of a build profile and an optional directive text: the
/// profile's compiled-in maximum level, refined by the parsed directives.
pub open spec fn spec_resolve_levels(p: BuildProfile, directives: Option<Seq<char>>) -> FilterModel {
    match directives {
        Some(t) => resolve(spec_static_max_level(p), parse_spec(t)),
        None => resolve(spec_static_max_level(p), Seq::empty()),
    }
}

/// Resolves the levels of a logger from its build profile and, when present,
/// the directive text of the environment. Malformed directives are skipped,
/// so this never fails.
pub fn resolve_levels(profile: &BuildProfile, directives: Option<&str>) -> (r: LevelFilter)
    ensures
        r@ == spec_resolve_levels(*profile, match directives {
            Some(t) => Some(t@),
            None => None,
        }),
{
    let base = static_max_level(profile);
    match directives {
        Some(t) => {
            let ds = parse_directives(t);
            proof {
                assert(ds@.map_values(|d: Directive| d@) =~= parse_spec(t@));
            }
            LevelFilter::from_directives(base, &ds)
        },
        None => {
            let ds: Vec<Directive> = Vec::new();
            proof {
                assert(ds@.map_values(|d: Directive| d@) =~= Seq::<DirectiveModel>::empty());
            }
            LevelFilter::from_directives(base, &ds)
        },
    }
}

/// A record strictly below the level that applies to its module never
/// passes; one at or above it passes unless it is `Off`.
pub proof fn lemma_drop_below_level(f: FilterModel, sev: Severity, module: Seq<char>)
    ensures
        rank(sev) < rank(applicable_level(f, module)) ==> !spec_enabled(f, sev, module),
        sev != Severity::Off && rank(sev) >= rank(applicable_level(f, module)) ==> spec_enabled(
            f,
            sev,
            module,
        ),
{
}

/// With no directives, every module is gated by the compiled-in maximum level
/// of the build profile.
pub proof fn lemma_no_directives_static_level(p: BuildProfile, module: Seq<char>)
    ensures
        applicable_level(spec_resolve_levels(p, None), module) == spec_static_max_level(p),
{
}

/// A trailing directive for every module replaces the global level and
/// leaves every override as it was.
pub proof fn lemma_global_directive_last(base: Severity, ds: Seq<DirectiveModel>, l: Severity)
    ensures
        resolve(base, ds.push(DirectiveModel { module: None, level: l })).global == l,
        resolve(base, ds.push(DirectiveModel { module: None, level: l })).overrides == resolve(
            base,
            ds,
        ).overrides,
{
    assert(ds.push(DirectiveModel { module: None, level: l }).drop_last() =~= ds);
}

/// A later directive for a module overrides every earlier one for it: after
/// `m=l`, records of module `m` are gated by `l`.
pub proof fn lemma_module_directive_last(
    base: Severity,
    ds: Seq<DirectiveModel>,
    m: Seq<char>,
    l: Severity,
)
    ensures
        applicable_level(resolve(base, ds.push(DirectiveModel { module: Some(m), level: l })), m)
            == l,
{
    let ds2 = ds.push(DirectiveModel { module: Some(m), level: l });
    assert(ds2.drop_last() =~= ds);
    let ovs = resolve(base, ds).overrides;
    let ovs2 = ovs.push((m, l));
    assert(ovs2.drop_last() =~= ovs);
    assert(m.take(m.len() as int) =~= m);
    lemma_best_in_range(ovs, m);
}

} // verus!
