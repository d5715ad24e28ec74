use dakv_logger::directive::{parse_directives, Directive};
use dakv_logger::filter::{resolve_levels, LevelFilter};
use dakv_logger::profile::{static_max_level, BuildProfile, LevelCaps};
use dakv_logger::severity::{passes, Severity};

fn module_of(d: &Directive) -> Option<String> {
    d.module.as_ref().map(|m| m.iter().collect::<String>())
}

fn release_with(caps: LevelCaps) -> BuildProfile {
    BuildProfile { debug_assertions: false, release_caps: caps, caps: LevelCaps::none() }
}

#[test]
fn default_debug_build_gates_at_debug() {
    let profile = BuildProfile::plain(true);
    assert_eq!(static_max_level(&profile), Severity::Debug);
    let f = resolve_levels(&profile, None);
    assert_eq!(f.global, Severity::Debug);
    assert!(!f.enabled(Severity::Trace, "app"));
    assert!(f.enabled(Severity::Debug, "app"));
}

#[test]
fn default_release_build_gates_at_info() {
    let profile = BuildProfile::plain(false);
    assert_eq!(static_max_level(&profile), Severity::Info);
}

#[test]
fn release_error_category_gates_at_error() {
    let profile = release_with(LevelCaps::only(Severity::Error));
    assert_eq!(static_max_level(&profile), Severity::Error);
    let f = resolve_levels(&profile, None);
    assert!(!f.enabled(Severity::Info, "app"));
    assert!(f.enabled(Severity::Error, "app"));
}

#[test]
fn release_categories_ignored_in_debug_build() {
    let profile = BuildProfile {
        debug_assertions: true,
        release_caps: LevelCaps::only(Severity::Off),
        caps: LevelCaps::none(),
    };
    assert_eq!(static_max_level(&profile), Severity::Debug);
}

#[test]
fn general_category_applies_to_every_build() {
    let profile = BuildProfile {
        debug_assertions: true,
        release_caps: LevelCaps::none(),
        caps: LevelCaps::only(Severity::Warning),
    };
    assert_eq!(static_max_level(&profile), Severity::Warning);
    let release = BuildProfile {
        debug_assertions: false,
        release_caps: LevelCaps::none(),
        caps: LevelCaps::only(Severity::Trace),
    };
    assert_eq!(static_max_level(&release), Severity::Trace);
}

#[test]
fn release_category_beats_general_category() {
    let profile = BuildProfile {
        debug_assertions: false,
        release_caps: LevelCaps::only(Severity::Info),
        caps: LevelCaps::only(Severity::Trace),
    };
    assert_eq!(static_max_level(&profile), Severity::Info);
}

#[test]
fn several_categories_pick_first_in_priority_order() {
    let mut caps = LevelCaps::none();
    caps.trace = true;
    caps.error = true;
    caps.debug = true;
    assert_eq!(caps.first_declared(), Some(Severity::Error));
    assert_eq!(static_max_level(&release_with(caps)), Severity::Error);
    caps.off = true;
    assert_eq!(static_max_level(&release_with(caps)), Severity::Off);
}

#[test]
fn critical_declares_no_category() {
    assert_eq!(LevelCaps::only(Severity::Critical).first_declared(), None);
}

#[test]
fn module_directive_refines_one_module() {
    let profile = BuildProfile::plain(false);
    let f = resolve_levels(&profile, Some("mymodule=trace"));
    assert_eq!(f.global, Severity::Info);
    assert!(f.enabled(Severity::Trace, "mymodule"));
    assert!(!f.enabled(Severity::Trace, "other"));
    assert!(f.enabled(Severity::Info, "other"));
}

#[test]
fn module_scope_matches_by_prefix() {
    let f = resolve_levels(&BuildProfile::plain(false), Some("crate2=info,crate2::mod=debug,crate1::mod1=warn"));
    assert!(f.enabled(Severity::Debug, "crate2::mod1"));
    assert!(!f.enabled(Severity::Debug, "crate2"));
    assert!(!f.enabled(Severity::Info, "crate1::mod1::x"));
    assert!(f.enabled(Severity::Warning, "crate1::mod1::x"));
}

#[test]
fn later_directive_overrides_earlier() {
    let f = resolve_levels(&BuildProfile::plain(true), Some("m=error;m=trace,warn"));
    assert_eq!(f.global, Severity::Warning);
    assert!(f.enabled(Severity::Trace, "m"));
    assert!(!f.enabled(Severity::Info, "x"));
    let g = resolve_levels(&BuildProfile::plain(true), Some("m=trace;m=error"));
    assert!(!g.enabled(Severity::Warning, "m"));
}

#[test]
fn global_directive_sets_baseline() {
    let f = resolve_levels(&BuildProfile::plain(true), Some("error"));
    assert_eq!(f.global, Severity::Error);
    assert!(!f.enabled(Severity::Warning, "any"));
    assert!(f.enabled(Severity::Critical, "any"));
}

#[test]
fn off_lets_nothing_through() {
    let f = resolve_levels(&BuildProfile::plain(true), Some("off"));
    assert!(!f.enabled(Severity::Critical, "any"));
    assert!(!passes(Severity::Off, Severity::Trace));
    assert!(!passes(Severity::Critical, Severity::Off));
    assert!(passes(Severity::Critical, Severity::Trace));
}

#[test]
fn parse_two_directives() {
    let ds = parse_directives("info,crate1::mod1=warn");
    assert_eq!(ds.len(), 2);
    assert_eq!(module_of(&ds[0]), None);
    assert_eq!(ds[0].level, Severity::Info);
    assert_eq!(module_of(&ds[1]), Some("crate1::mod1".to_string()));
    assert_eq!(ds[1].level, Severity::Warning);
}

#[test]
fn parse_skips_malformed_entries() {
    let ds = parse_directives("a=b=c,=info,bogus,x=nope,,y=debug");
    assert_eq!(ds.len(), 1);
    assert_eq!(module_of(&ds[0]), Some("y".to_string()));
    assert_eq!(ds[0].level, Severity::Debug);
}

#[test]
fn parse_empty_text() {
    assert_eq!(parse_directives("").len(), 0);
    assert_eq!(parse_directives(",;,").len(), 0);
}

#[test]
fn parse_level_names_and_abbreviations() {
    let ds = parse_directives("TRACE;t;DEBG;Warn;crit;e;o");
    let levels: Vec<Severity> = ds.iter().map(|d| d.level).collect();
    assert_eq!(
        levels,
        vec![
            Severity::Trace,
            Severity::Trace,
            Severity::Debug,
            Severity::Warning,
            Severity::Critical,
            Severity::Error,
            Severity::Off
        ]
    );
    assert_eq!(parse_directives("warnings").len(), 0);
    assert_eq!(parse_directives("debu g").len(), 0);
}

#[test]
fn malformed_directive_leaves_levels_unchanged() {
    let profile = BuildProfile::plain(false);
    let f = resolve_levels(&profile, Some("mod=loud"));
    assert_eq!(f.global, Severity::Info);
    assert!(f.overrides.is_empty());
}

#[test]
fn filter_from_directive_list() {
    let ds = vec![
        Directive { module: Some("a".chars().collect()), level: Severity::Error },
        Directive { module: None, level: Severity::Trace },
    ];
    let f = LevelFilter::from_directives(Severity::Info, &ds);
    assert_eq!(f.global, Severity::Trace);
    assert_eq!(f.level_for(&"ab".chars().collect()), Severity::Error);
    assert_eq!(f.level_for(&"b".chars().collect()), Severity::Trace);
}

#[test]
fn severity_ranks_are_ordered() {
    assert_eq!(Severity::Trace.rank(), 0);
    assert_eq!(Severity::Off.rank(), 6);
    assert!(Severity::Error.at_least(Severity::Warning));
    assert!(!Severity::Debug.at_least(Severity::Info));
}

#[test]
fn trailing_malformed_entry_changes_nothing() {
    let a = parse_directives("info;m=debug");
    let b = parse_directives("info;m=debug,m=loud");
    assert_eq!(a.len(), b.len());
    for (x, y) in a.iter().zip(b.iter()) {
        assert_eq!(module_of(x), module_of(y));
        assert_eq!(x.level, y.level);
    }
}

#[test]
fn non_ascii_level_name_is_malformed() {
    assert_eq!(parse_directives("ïnfo").len(), 0);
    assert_eq!(parse_directives("mödule=info").len(), 1);
}
