//! Progress, profiling, the model catalogue and the precision ladder.

use mummu::prof::{
    counts::countable, enabled, flamegraph_svg, folded, record, reset, scope, set_enabled, Profiler,
    ScopeStack,
};
use mummu::progress::{
    advance, begin, evicted, finish, idle, phase, snapshot, Load, Phase, Progress, Snapshot,
};
use mummu::quant::{QuantPolicy, Scheme};
use mummu::registry::{catalog, Architecture, Fetch, ModelSpec, WeightFormat};

// ---- progress --------------------------------------------------------------

fn snap(done: u64, expected: u64, bytes: u64, elapsed_ms: u64) -> (Snapshot, u64) {
    let now = 1_700_000_000_000u64;
    (
        Snapshot {
            generation: 1,
            phase: Phase::Loading,
            model: "gemma3:27b".to_string(),
            done,
            expected,
            bytes,
            started_ms: now - elapsed_ms,
            updated_ms: now,
        },
        now,
    )
}

/// Bytes per second.
fn rate(s: &Snapshot, now: u64) -> Option<f64> {
    s.rate_parts(now).map(|(b, ms)| b as f64 / (ms as f64 / 1000.0))
}

/// Seconds left.
fn eta(s: &Snapshot, now: u64) -> Option<f64> {
    s.eta_parts(now)
        .map(|(ms, left, done)| ms as f64 / 1000.0 * (left as f64 / done as f64))
}

/// The finished fraction.
fn fraction(s: &Snapshot) -> Option<f64> {
    s.fraction_parts().map(|(d, n)| d as f64 / n as f64)
}

#[test]
fn rate_and_eta_match_the_load_they_describe() {
    let (s, now) = snap(673, 851, 14_800_000_000, 91_000);
    let elapsed = s.elapsed_ms(now).expect("a started phase has a clock") as f64 / 1000.0;
    assert!((elapsed - 91.0).abs() < 1.0, "elapsed {elapsed}");
    let r = rate(&s, now).expect("bytes were read");
    assert!((r - 162_600_000.0).abs() < 4_000_000.0, "~162 MB/s, got {r}");
    let e = eta(&s, now).expect("a total and a done count give an eta");
    assert!((e - 24.1).abs() < 1.0, "~24 s left, got {e}");
    assert!((fraction(&s).expect("counted") - 0.7908).abs() < 0.001);
}

#[test]
fn missing_inputs_give_none_never_zero_and_never_infinity() {
    let (uncounted, now) = snap(0, 0, 1 << 20, 5_000);
    assert_eq!(uncounted.eta_parts(now), None, "no total, no eta");
    assert_eq!(uncounted.fraction_parts(), None, "uncounted renders indeterminate");
    assert!(uncounted.rate_parts(now).is_some(), "bytes still give a rate");

    let (nothing_done, now) = snap(0, 851, 0, 3_000);
    assert_eq!(nothing_done.eta_parts(now), None);
    assert_eq!(nothing_done.rate_parts(now), None, "no bytes, no rate");
    assert_eq!(fraction(&nothing_done), Some(0.0));

    let (instant, now) = snap(4, 851, 1 << 20, 0);
    assert_eq!(instant.eta_parts(now), None, "no measurable time, no eta");
    assert_eq!(instant.rate_parts(now), None);

    let (base, now) = snap(0, 0, 0, 0);
    let never = Snapshot {
        started_ms: 0,
        updated_ms: 0,
        ..base
    };
    assert_eq!(never.elapsed_ms(now), None);
    assert_eq!(never.rate_parts(now), None);
    assert_eq!(never.eta_parts(now), None);
}

#[test]
fn an_overshooting_count_is_clamped_not_wrapped() {
    let (over, now) = snap(900, 851, 1 << 30, 10_000);
    assert_eq!(fraction(&over), Some(1.0));
    assert_eq!(eta(&over, now), Some(0.0), "saturating, never negative");
}

#[test]
fn a_load_reports_its_phases_and_settles_on_ready() {
    let mut p = Progress::new();
    let mut load = Load::begin(&mut p, "qwen3.5-2b", 1);
    assert_eq!(snapshot(&p).phase, Phase::Loading);
    assert_eq!(snapshot(&p).model, "qwen3.5-2b");

    load.begin_phase(&mut p, Phase::Loading, 851, 2);
    advance(&mut p, 673, 14 << 30, 3);
    let s = snapshot(&p);
    assert_eq!((s.done, s.expected), (673, 851));
    assert_eq!(fraction(&s).map(|f| (f * 100.0) as u32), Some(79));

    load.phase(&mut p, Phase::Warming, 4);
    let warming = snapshot(&p);
    assert_eq!(warming.phase, Phase::Warming);
    assert_eq!(
        warming.fraction_parts(),
        None,
        "the read's counts must not survive into a phase that has none"
    );

    load.ready(&mut p, 5);
    assert_eq!(snapshot(&p).phase, Phase::Ready);
    load.end(&mut p, 6);
    assert_eq!(snapshot(&p).phase, Phase::Ready, "a finished load stays ready");
    idle(&mut p, 7);
}

#[test]
fn a_load_that_fails_returns_to_idle_instead_of_loading_forever() {
    let mut p = Progress::new();
    let load = Load::begin(&mut p, "qwen3.8-27b", 1);
    load.begin_phase(&mut p, Phase::Loading, 851, 2);
    advance(&mut p, 300, 5 << 30, 3);
    assert_eq!(snapshot(&p).phase, Phase::Loading);
    // It gives up here: the guard ends without the load being ready.
    load.end(&mut p, 4);
    assert_eq!(
        snapshot(&p).phase,
        Phase::Idle,
        "an early return must not pin the bar at loading"
    );
    assert_eq!(snapshot(&p).model, "", "and must not leave the name behind");
}

#[test]
fn a_new_load_takes_over_and_the_old_guards_drop_does_nothing() {
    let mut p = Progress::new();
    let stale = Load::begin(&mut p, "old-model", 1);
    let stale_gen = stale.generation();
    let fresh = Load::begin(&mut p, "new-model", 2);
    assert!(fresh.generation() > stale_gen, "generation is monotonic");
    fresh.begin_phase(&mut p, Phase::Loading, 100, 3);
    advance(&mut p, 42, 1 << 20, 4);

    assert!(!stale.current(&p) && fresh.current(&p));
    stale.phase(&mut p, Phase::Warming, 5);
    stale.end(&mut p, 6);

    let s = snapshot(&p);
    assert_eq!(s.generation, fresh.generation());
    assert_eq!(s.phase, Phase::Loading, "the live load kept its phase");
    assert_eq!(s.done, 42, "and its counts");
    assert_eq!(s.model, "new-model");
    fresh.end(&mut p, 7);
    assert_eq!(snapshot(&p).phase, Phase::Idle);
}

#[test]
fn a_new_load_resets_a_stale_loads_counts() {
    let mut p = Progress::new();
    {
        let old = Load::begin(&mut p, "old-model", 1);
        old.begin_phase(&mut p, Phase::Loading, 851, 2);
        advance(&mut p, 800, 14 << 30, 3);
        old.end(&mut p, 4);
    }
    let fresh = Load::begin(&mut p, "new-model", 5);
    let s = snapshot(&p);
    assert_eq!((s.done, s.expected, s.bytes), (0, 0, 0));
    assert_eq!(s.model, "new-model");
    fresh.end(&mut p, 6);
    idle(&mut p, 7);
}

#[test]
fn an_eviction_retracts_the_ready_claim() {
    let mut p = Progress::new();
    let mut load = Load::begin(&mut p, "qwen3.5-2b", 1);
    load.ready(&mut p, 2);
    assert_eq!(snapshot(&p).phase, Phase::Ready);
    assert_eq!(snapshot(&p).model, "qwen3.5-2b");

    evicted(&mut p, 3);
    assert_eq!(
        snapshot(&p).phase,
        Phase::Idle,
        "nothing is resident, so nothing is ready"
    );
    assert_eq!(snapshot(&p).model, "", "and no model is named");
    load.end(&mut p, 4);
}

#[test]
fn an_eviction_leaves_a_load_in_flight_alone() {
    let mut p = Progress::new();
    let load = Load::begin(&mut p, "gemma3:27b", 1);
    load.begin_phase(&mut p, Phase::Loading, 851, 2);
    advance(&mut p, 300, 5 << 30, 3);

    evicted(&mut p, 4);
    let s = snapshot(&p);
    assert_eq!(s.phase, Phase::Loading, "the live load kept its phase");
    assert_eq!((s.done, s.expected), (300, 851), "and its counts");
    assert_eq!(s.model, "gemma3:27b");

    load.phase(&mut p, Phase::Warming, 5);
    evicted(&mut p, 6);
    assert_eq!(snapshot(&p).phase, Phase::Warming);
    load.end(&mut p, 7);
    assert_eq!(snapshot(&p).phase, Phase::Idle);
}

#[test]
fn evicting_nothing_changes_nothing() {
    let mut p = Progress::new();
    idle(&mut p, 1);
    let before = snapshot(&p);
    evicted(&mut p, 2);
    assert_eq!(snapshot(&p), before);
}

#[test]
fn phase_names_are_the_wire_names() {
    assert_eq!(Phase::Idle.as_str(), "idle");
    assert_eq!(Phase::Loading.as_str(), "loading");
    assert_eq!(Phase::Packing.as_str(), "packing");
    assert_eq!(Phase::Warming.as_str(), "warming");
    assert_eq!(Phase::Ready.as_str(), "ready");
    assert!(Phase::Loading.is_working());
    assert!(!Phase::Ready.is_working(), "resident is not work");
    assert!(!Phase::Idle.is_working());
}

#[test]
fn a_phase_without_a_guard_counts_too() {
    let mut p = Progress::new();
    begin(&mut p, Phase::Packing, 7, 10);
    advance(&mut p, 3, 5, 11);
    let s = snapshot(&p);
    assert_eq!((s.phase, s.done, s.expected, s.bytes), (Phase::Packing, 3, 7, 5));
    assert_eq!((s.started_ms, s.updated_ms), (10, 11));
    phase(&mut p, Phase::Warming, 12);
    finish(&mut p, 13);
    assert_eq!(snapshot(&p).phase, Phase::Ready);
}

// ---- profiling -------------------------------------------------------------

fn profiler() -> (Profiler, ScopeStack) {
    let mut p = Profiler::new();
    set_enabled(&mut p, true);
    (p, ScopeStack::new())
}

const MS: u64 = 1_000_000;

#[test]
fn nested_scopes_fold_into_self_time() {
    let (mut p, mut stack) = profiler();
    let outer = scope(&p, &mut stack, "outer", 0);
    let inner = scope(&p, &mut stack, "inner", 20 * MS);
    assert_eq!(stack.path(), "outer;inner");
    inner.end(&mut p, &mut stack, 40 * MS);
    outer.end(&mut p, &mut stack, 40 * MS);
    let folded = folded(&p);
    let get = |needle: &str| -> u64 {
        folded
            .lines()
            .find(|l| l.starts_with(needle))
            .and_then(|l| l.rsplit(' ').next())
            .and_then(|v| v.parse().ok())
            .unwrap_or_else(|| panic!("missing {needle:?} in {folded:?}"))
    };
    let outer = get("outer (");
    let inner = get("outer;inner (");
    assert_eq!(inner, 20_000);
    assert_eq!(outer, 20_000, "outer self must exclude the child");
}

#[test]
fn a_guard_created_while_off_never_touches_the_stack() {
    let (mut p, mut stack) = profiler();
    set_enabled(&mut p, false);
    let dead = scope(&p, &mut stack, "phantom", 0);
    set_enabled(&mut p, true);
    let live = scope(&p, &mut stack, "real", 1);
    dead.end(&mut p, &mut stack, 2); // must NOT pop "real"
    live.end(&mut p, &mut stack, 3);
    let folded = folded(&p);
    assert!(!folded.contains("phantom"), "{folded:?}");
    assert!(folded.lines().count() <= 1, "only 'real': {folded:?}");
}

#[test]
fn record_is_stackless_and_accumulates() {
    let (mut p, _stack) = profiler();
    record(&mut p, "token;readback", 500_000);
    record(&mut p, "token;readback", 500_000);
    let folded = folded(&p);
    assert!(folded.contains("token;readback (2x) 1000"), "{folded:?}");
}

#[test]
fn repeated_scopes_aggregate() {
    let (mut p, mut stack) = profiler();
    for i in 0..64u64 {
        let l = scope(&p, &mut stack, "layer", i * MS);
        l.end(&mut p, &mut stack, i * MS + 300_000);
    }
    let folded = folded(&p);
    let line = folded
        .lines()
        .find(|l| l.starts_with("layer ("))
        .expect("layer line");
    assert!(line.contains("(64x)"), "{line}");
    assert!(line.ends_with(" 19200"), "{line}");
}

#[test]
fn recording_is_off_until_it_is_switched_on() {
    let mut p = Profiler::new();
    assert!(!enabled(&p));
    record(&mut p, "a", 1_000);
    assert_eq!(folded(&p), "");
    set_enabled(&mut p, true);
    record(&mut p, "a", 5_000);
    assert_eq!(folded(&p).trim_end(), "a (1x) 5");
    reset(&mut p);
    assert_eq!(folded(&p), "");
}

#[test]
fn every_path_has_a_line_and_a_negative_self_time_is_zero() {
    let (mut p, _stack) = profiler();
    record(&mut p, "a", 1_000);
    record(&mut p, "a;b", 5_000);
    assert_eq!(folded(&p), "a (1x) 0\na;b (1x) 5\n");
}

#[test]
fn only_count_columns_must_fit() {
    assert!(countable("foo99999999999999999999 5"));
    let svg = flamegraph_svg("foo99999999999999999999 5").expect("drawn");
    assert!(svg.contains("foo99999999999999999999"));
    assert!(countable("a 18446744073709551615"));
    assert!(!countable("a 18446744073709551615\nb 1"), "the sum overflows");
    assert!(countable("a 18446744073709551615\n# b 1"), "a remark counts nothing");
    assert!(countable("a 3 99999999999999999999999"), "a column past 64 bits is no count");
    assert!(!countable("a 0 3000000000000000000\nb 3000000000000000000 3000000000000000001\n"));
    assert!(flamegraph_svg("a;b 10 5\na;c 3.25\n").is_ok());
    for nothing in ["a", "a 0", "# a 5", "a x", "a 5x", "a ."] {
        assert_eq!(
            flamegraph_svg(nothing),
            Err("flamegraph render: No stack counts found".to_string()),
            "{nothing:?}"
        );
    }
}

#[test]
fn a_flame_graph_is_drawn_from_the_folded_text() {
    let (mut p, _stack) = profiler();
    record(&mut p, "token", 9_000_000);
    record(&mut p, "token;readback", 4_000_000);
    let text = folded(&p);
    assert!(countable(&text));
    let svg = flamegraph_svg(&text).expect("drawn");
    assert!(svg.contains("<svg"), "a drawing, not the text it was made from");
    assert!(svg.contains("readback"));
    assert!(flamegraph_svg("").is_err(), "nothing to draw");
}

// ---- the catalogue ---------------------------------------------------------

#[test]
fn builtin_catalog_validates_and_names_are_unique() {
    let cat = catalog();
    assert!(cat.len() >= 3);
    for spec in &cat {
        spec.validate().unwrap_or_else(|e| panic!("{e}"));
    }
    let mut names: Vec<&str> = cat.iter().map(|s| s.name.as_str()).collect();
    names.sort_unstable();
    names.dedup();
    assert_eq!(names.len(), cat.len(), "duplicate names in the catalog");
}

#[test]
fn spec_dir_is_rooted_and_named() {
    let spec = &catalog()[0];
    let dir = spec.dir("root/models");
    assert_eq!(dir, format!("root/models/{}", spec.name));
}

#[test]
fn traversal_names_are_rejected() {
    let mut spec = catalog()[0].clone();
    spec.name = "../escape".to_string();
    assert!(spec.validate().is_err(), "path traversal must not validate");
}

#[test]
fn bare_repo_is_rejected() {
    let mut spec = catalog()[0].clone();
    spec.repo = "qwen".to_string();
    assert!(spec.validate().is_err());
}

#[test]
fn bad_gguf_file_names_are_rejected() {
    let mut spec = catalog()[0].clone();
    for bad in ["", "../up.gguf", "/abs.gguf", "weights.bin"] {
        spec.format = WeightFormat::Gguf {
            file: bad.to_string(),
        };
        assert!(spec.validate().is_err(), "{bad:?} must not validate");
    }
    spec.format = WeightFormat::Gguf {
        file: "ok-model.q4_k_m.gguf".to_string(),
    };
    assert!(spec.validate().is_ok());
}

#[test]
fn a_name_that_is_no_directory_of_its_own_is_refused() {
    for (name, fine) in [(".", false), ("..", false), ("...", true), ("a..b", true)] {
        let spec = ModelSpec {
            name: name.to_string(),
            repo: "a/b".to_string(),
            revision: "main".to_string(),
            architecture: Architecture::Qwen2,
            format: WeightFormat::Safetensors,
            disk_bytes_estimate: 1,
        };
        assert_eq!(spec.validate().is_ok(), fine, "{name:?}");
    }
}

#[test]
fn a_spec_says_what_to_fetch() {
    let plain = ModelSpec {
        name: "m".to_string(),
        repo: "a/b".to_string(),
        revision: "main".to_string(),
        architecture: Architecture::Qwen2,
        format: WeightFormat::Safetensors,
        disk_bytes_estimate: 1,
    };
    assert_eq!(plain.gguf_path("root"), None);
    match plain.fetch("root") {
        Fetch::Model { repo, revision, dir } => {
            assert_eq!((repo.as_str(), revision.as_str(), dir.as_str()), ("a/b", "main", "root/m"));
        }
        Fetch::File { .. } => panic!("the whole model is fetched"),
    }
    let gguf = catalog()
        .into_iter()
        .find(|s| matches!(s.format, WeightFormat::Gguf { .. }))
        .expect("catalog has a gguf entry");
    let name = gguf.name.clone();
    let want = match &gguf.format {
        WeightFormat::Gguf { file } => file.clone(),
        WeightFormat::Safetensors => unreachable!(),
    };
    assert_eq!(gguf.gguf_path("root"), Some(format!("root/{name}/{want}")));
    match gguf.fetch("root") {
        Fetch::File { file, path, .. } => {
            assert_eq!(file, want);
            assert_eq!(path, format!("root/{name}/{want}"));
        }
        Fetch::Model { .. } => panic!("one file is fetched"),
    }
}

// ---- the ladder ------------------------------------------------------------

#[test]
fn the_ladder_is_consistent_in_every_direction() {
    let ladder = QuantPolicy::ladder();
    for pair in ladder.windows(2) {
        let (hi, lo) = (pair[0], pair[1]);
        assert!(hi.bits() > lo.bits(), "{hi:?} should be wider than {lo:?}");
        assert_eq!(hi.demote(), Some(lo), "{hi:?} demotes to {lo:?}");
        assert_eq!(lo.promote(), Some(hi), "{lo:?} promotes to {hi:?}");
    }
    assert_eq!(ladder[0].promote(), None, "nothing above the top rung");
    assert_eq!(
        ladder[ladder.len() - 1].demote(),
        None,
        "nothing below the bottom rung"
    );
}

#[test]
fn policy_env_parsing() {
    assert_eq!(QuantPolicy::Off.scheme(), None);
    assert!(QuantPolicy::Q8.scheme().is_some());
    assert!(QuantPolicy::Q8.eligible(&vec![512, 512]));
    assert!(!QuantPolicy::Q8.eligible(&vec![16, 16]));
    assert!(!QuantPolicy::Q8.eligible(&vec![1024]));
    assert!(!QuantPolicy::Off.eligible(&vec![4096, 4096]));
    assert!(!QuantPolicy::Q4.eligible(&vec![5120, 48]));
    assert!(QuantPolicy::Q4.eligible(&vec![5120, 10240]));
    assert_eq!(QuantPolicy::Q4.scheme(), Some(Scheme { bits: 4, block: 32 }));
}
