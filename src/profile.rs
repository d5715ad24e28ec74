use vstd::prelude::*;

use crate::severity::Severity;

verus! {

/// The maximum-level categories that one build mode declares.
///
/// Several may be declared at once; the resolver honours only the first of
/// them in the order `off`, `error`, `warn`, `info`, `debug`, `trace`.
#[derive(Clone, Copy, Debug, PartialEq, Eq, Structural)]
pub struct LevelCaps {
    pub off: bool,
    pub error: bool,
    pub warn: bool,
    pub info: bool,
    pub debug: bool,
    pub trace: bool,
}

/// What a build says about logging levels: whether it is a debug build, the
/// categories declared for release builds, and those declared for every build.
#[derive(Clone, Copy, Debug, PartialEq, Eq, Structural)]
pub struct BuildProfile {
    pub debug_assertions: bool,
    pub release_caps: LevelCaps,
    pub caps: LevelCaps,
}

/// Whether `caps` declares the category of severity `s`.
pub open spec fn declares(caps: LevelCaps, s: Severity) -> bool {
    match s {
        Severity::Off => caps.off,
        Severity::Error => caps.error,
        Severity::Warning => caps.warn,
        Severity::Info => caps.info,
        Severity::Debug => caps.debug,
        Severity::Trace => caps.trace,
        Severity::Critical => false,
    }
}

/// Position of a category in the fixed priority order; `Off` comes first.
pub open spec fn priority(s: Severity) -> nat {
    match s {
        Severity::Off => 0,
        Severity::Error => 1,
        Severity::Warning => 2,
        Severity::Info => 3,
        Severity::Debug => 4,
        Severity::Trace => 5,
        Severity::Critical => 6,
    }
}

/// The first category that `caps` declares, in priority order.
pub open spec fn spec_first_declared(caps: LevelCaps) -> Option<Severity> {
    if caps.off {
        Some(Severity::Off)
    } else if caps.error {
        Some(Severity::Error)
    } else if caps.warn {
        Some(Severity::Warning)
    } else if caps.info {
        Some(Severity::Info)
    } else if caps.debug {
        Some(Severity::Debug)
    } else if caps.trace {
        Some(Severity::Trace)
    } else {
        None
    }
}

/// The level a build uses when it declares no category: `Debug` for a debug
/// build, `Info` for a release build.
pub open spec fn base_default(debug_assertions: bool) -> Severity {
    if debug_assertions {
        Severity::Debug
    } else {
        Severity::Info
    }
}

/// The compiled-in maximum level of a build profile: a release build honours
/// its release categories first, then every build its general categories,
/// then the base default.
pub open spec fn spec_static_max_level(p: BuildProfile) -> Severity {
    if !p.debug_assertions && spec_first_declared(p.release_caps) is Some {
        spec_first_declared(p.release_caps)->Some_0
    } else if spec_first_declared(p.caps) is Some {
        spec_first_declared(p.caps)->Some_0
    } else {
        base_default(p.debug_assertions)
    }
}

impl LevelCaps {
    /// No category declared.
    pub fn none() -> (r: LevelCaps)
        ensures
            spec_first_declared(r) is None,
    {
        LevelCaps { off: false, error: false, warn: false, info: false, debug: false, trace: false }
    }

    /// Exactly the category of `s` declared; `Critical` has no category, so
    /// for it nothing is declared.
    pub fn only(s: Severity) -> (r: LevelCaps)
        ensures
            forall|t: Severity| #[trigger] declares(r, t) <==> (t == s && t != Severity::Critical),
            spec_first_declared(r) == if s == Severity::Critical {
                None
            } else {
                Some(s)
            },
    {
        LevelCaps {
            off: s == Severity::Off,
            error: s == Severity::Error,
            warn: s == Severity::Warning,
            info: s == Severity::Info,
            debug: s == Severity::Debug,
            trace: s == Severity::Trace,
        }
    }

    /// The first declared category in the order off, error, warn, info, debug, trace.
    pub fn first_declared(&self) -> (r: Option<Severity>)
        ensures
            r == spec_first_declared(*self),
    {
        if self.off {
            Some(Severity::Off)
        } else if self.error {
            Some(Severity::Error)
        } else if self.warn {
            Some(Severity::Warning)
        } else if self.info {
            Some(Severity::Info)
        } else if self.debug {
            Some(Severity::Debug)
        } else if self.trace {
            Some(Severity::Trace)
        } else {
            None
        }
    }
}

impl BuildProfile {
    /// A profile that declares no category.
    pub fn plain(debug_assertions: bool) -> (r: BuildProfile)
        ensures
            r.debug_assertions == debug_assertions,
            spec_first_declared(r.release_caps) is None,
            spec_first_declared(r.caps) is None,
    {
        BuildProfile { debug_assertions, release_caps: LevelCaps::none(), caps: LevelCaps::none() }
    }
}

/// Resolves the compiled-in maximum level of a build profile.
pub fn static_max_level(p: &BuildProfile) -> (r: Severity)
    ensures
        r == spec_static_max_level(*p),
{
    if !p.debug_assertions {
        if let Some(s) = p.release_caps.first_declared() {
            return s;
        }
    }
    match p.caps.first_declared() {
        Some(s) => s,
        None => if p.debug_assertions {
            Severity::Debug
        } else {
            Severity::Info
        },
    }
}

/// The first declared category is declared, and no declared category comes
/// before it in priority order; when none is declared, the caps declare nothing.
pub proof fn lemma_first_declared_is_first(caps: LevelCaps)
    ensures
        spec_first_declared(caps) matches Some(s) ==> declares(caps, s) && s != Severity::Critical
            && forall|t: Severity| #[trigger] declares(caps, t) ==> priority(s) <= priority(t),
        spec_first_declared(caps) is None ==> forall|t: Severity| !#[trigger] declares(caps, t),
{
}

/// The resolver is a total function of the build profile that picks exactly
/// one level: in a release build that declares a release category, the first
/// such category in priority order; otherwise the first declared general
/// category; otherwise `Debug` for a debug build and `Info` for a release one.
pub proof fn lemma_resolver_priority(p: BuildProfile)
    ensures
        !p.debug_assertions && (exists|t: Severity| declares(p.release_caps, t)) ==> {
            let r = spec_static_max_level(p);
            declares(p.release_caps, r) && forall|t: Severity| #[trigger]
                declares(p.release_caps, t) ==> priority(r) <= priority(t)
        },
        (p.debug_assertions || forall|t: Severity| !#[trigger] declares(p.release_caps, t)) && (
        exists|t: Severity| declares(p.caps, t)) ==> {
            let r = spec_static_max_level(p);
            declares(p.caps, r) && forall|t: Severity| #[trigger]
                declares(p.caps, t) ==> priority(r) <= priority(t)
        },
        (p.debug_assertions || forall|t: Severity| !#[trigger] declares(p.release_caps, t))
            && (forall|t: Severity| !#[trigger] declares(p.caps, t)) ==> spec_static_max_level(p)
            == base_default(p.debug_assertions),
{
    lemma_first_declared_is_first(p.release_caps);
    lemma_first_declared_is_first(p.caps);
}

} // verus!
