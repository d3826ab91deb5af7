use prism::api::VramVitals;
use prism::config::{Facet, FacetLimits, GovernorConfig};
use prism::events::Level;
use prism::gate::{Gate, Probe};
use prism::governor::Tier;
use prism::graceful_config::{Graceful, HttpPost};
use prism::monitor::{ask_facets_to_yield, contained, pace, respond, watched_paths, Monitor, Response};
use prism::sensors::disk::MountUsage;
use prism::sensors::gpu::{GpuMemory, GpuProcess, GpuSnapshot};
use prism::sensors::memory::{MemorySnapshot, PsiRaw};
use prism::supervisor::FacetStatus;
use prism::watchdog::storm::{StormAction, StormDetector, StormRule, StormTrigger, StormVerdict};

const SECOND: u64 = 1_000_000_000;

const BARE: Probe = Probe { binary: false, path: false, process: false };

fn facet(id: &str, offloads: bool, hook: bool) -> Facet {
    Facet {
        id: id.to_string(),
        name: id.to_string(),
        command: vec!["run".to_string()],
        cwd: None,
        limits: FacetLimits::default(),
        enabled_if: Gate::default(),
        pty: false,
        expose: None,
        graceful: if hook {
            Some(Graceful {
                http_post: HttpPost { url: "http://127.0.0.1:1/free".to_string(), body: "{}".to_string(), content_type: None },
                timeout: "1s".to_string(),
            })
        } else {
            None
        },
        offloads_to_ram: offloads,
    }
}

fn monitor() -> Monitor {
    let rule = StormRule {
        id: "r".to_string(),
        pattern: "^w".to_string(),
        max_count: 1,
        max_spawns_per_min: None,
        action: StormAction::KillMatched,
        enabled_if: Gate::default(),
        cooldown_secs: 0,
    };
    let (storms, _) = StormDetector::new(vec![rule], &vec![BARE]);
    Monitor::new(GovernorConfig::default(), storms)
}

fn memory(headroom_mib: u64) -> MemorySnapshot {
    MemorySnapshot { honest_headroom_kb: headroom_mib * 1024, ..Default::default() }
}

fn card() -> GpuSnapshot {
    GpuSnapshot {
        memory: GpuMemory { total_mib: 12288, used_mib: 5000, free_mib: 7288 },
        processes: vec![GpuProcess { pid: 1, used_mib: 3000, name: "a".to_string(), owner: Some("comfyui".to_string()) }],
    }
}

#[test]
fn pressure_changes_the_tier_after_it_lasts() {
    let mut m = monitor();
    let disks: Vec<MountUsage> = vec![];
    let none: Vec<Facet> = vec![];
    m.begin(None);
    let first = m.tick(&memory(100), Some(PsiRaw::default()), &disks, &none, 0);
    assert!(first.change.is_none());
    assert_eq!(first.reading.headroom_mib, 100);
    assert_eq!(first.reading.vram_overdraft_mib, None);
    m.begin(None);
    let later = m.tick(&memory(100), Some(PsiRaw::default()), &disks, &none, 11 * SECOND);
    let (tier, note) = later.change.unwrap();
    assert_eq!(tier, Tier::Black);
    assert_eq!(note.source, "governor");
    assert_eq!(note.level, Level::Error);
    assert_eq!(note.message, "tier black");
    assert!(note.detail.unwrap().starts_with("Headroom \u{b7} 0.0% stall \u{b7} 0.1 GiB honest headroom"));
    // What is published is the state that motivated the change.
    assert_eq!(later.vitals.tier, "green");
}

#[test]
fn only_what_offloads_is_owed_for() {
    let mut m = monitor();
    m.begin(Some(card()));
    assert!(m.accountable(&vec![facet("comfyui", true, false)]));
    assert_eq!(m.spill_liability(&vec![facet("comfyui", true, false)]), Some(3000));
    assert_eq!(m.spill_liability(&vec![facet("comfyui", false, false)]), Some(0));
    let mut blind = monitor();
    blind.begin(None);
    assert_eq!(blind.spill_liability(&vec![facet("comfyui", true, false)]), None);
}

#[test]
fn the_card_is_looked_at_every_other_tick() {
    let mut m = monitor();
    let mut looks = 0;
    for _ in 0..10 {
        let due = m.gpu_due();
        if due {
            looks += 1;
        }
        m.begin(if due { Some(card()) } else { None });
    }
    assert_eq!(looks, 5);
}

#[test]
fn a_storm_is_seen_through_the_monitor() {
    let mut m = monitor();
    let calm = vec![(1, "w1".to_string())];
    let storm = vec![(1, "w1".to_string()), (2, "w2".to_string()), (3, "x".to_string())];
    assert!(m.detect_storms(&calm, 0).is_empty());
    let v = m.detect_storms(&storm, SECOND);
    assert_eq!(v.len(), 1);
    assert_eq!(v[0].pids, vec![1, 2]);
}

#[test]
fn only_running_facets_with_a_hook_are_asked_to_yield() {
    let facets = vec![facet("a", false, true), facet("b", false, true), facet("c", false, false)];
    let states = vec![FacetStatus::Running, FacetStatus::Stopped, FacetStatus::Running];
    let vram = Some(VramVitals {
        total_mib: 10,
        ours_mib: 5,
        foreign_mib: 2,
        budget_mib: 4,
        overdraft_mib: 1,
        spill_liability_mib: 0,
    });
    let asks = ask_facets_to_yield(&facets, &states, Tier::Red, 900, &vram);
    assert_eq!(asks.len(), 1);
    assert_eq!(asks[0].deficit.facet, "a");
    assert_eq!(asks[0].deficit.vram_overdraft_mib, Some(1));
    assert_eq!(asks[0].deficit.headroom_mib, 900);
    // On the way down too: a workload that shed something is told when it may
    // take it back. What Prism did not start is asked as well.
    let foreign = vec![FacetStatus::Stopped, FacetStatus::Foreign, FacetStatus::Running];
    let asks = ask_facets_to_yield(&facets, &foreign, Tier::Green, 900, &None);
    assert_eq!(asks.len(), 1);
    assert_eq!(asks[0].deficit.facet, "b");
    assert_eq!(asks[0].deficit.vram_budget_mib, None);
}

fn verdict(action: StormAction, suppressed: bool) -> StormVerdict {
    StormVerdict {
        rule_id: "r".to_string(),
        trigger: StormTrigger::CountExceeded,
        count: 2,
        spawns_per_min: 1,
        pids: vec![7, 8],
        action,
        suppressed,
    }
}

#[test]
fn a_suppressed_verdict_only_reports() {
    assert!(matches!(respond(&verdict(StormAction::KillMatched, true)), Response::Report(_)));
    assert!(matches!(respond(&verdict(StormAction::Notify, false)), Response::Nothing));
    assert!(matches!(respond(&verdict(StormAction::KillMatched, false)), Response::Kill(p) if p == vec![7, 8]));
    let run = StormAction::Command(vec!["x".to_string()]);
    assert!(matches!(respond(&verdict(run, false)), Response::Run(c) if c == vec!["x".to_string()]));
}

#[test]
fn what_was_contained_is_written_down_as_an_action() {
    let note = contained(&verdict(StormAction::KillMatched, false), 2, 512);
    assert_eq!(note.level, Level::Action);
    assert_eq!(note.source, "storm");
    assert_eq!(note.message, "contained `r`");
    assert_eq!(note.detail.as_deref(), Some("terminated 2 of 2 processes, 512 MiB reclaimed"));
}

#[test]
fn the_usual_filesystems_are_watched_unless_others_are_named() {
    assert_eq!(watched_paths(&vec!["/data".to_string()], Some("/home/u")), vec!["/data"]);
    assert!(watched_paths(&vec![], Some("/home/u")).contains(&"/".to_string()));
}

#[test]
fn a_tick_that_took_too_long_is_not_made_up_for() {
    assert_eq!(pace(5 * SECOND, 3 * SECOND), (5 * SECOND, 2 * SECOND));
    assert_eq!(pace(5 * SECOND, 5 * SECOND), (5 * SECOND, 0));
    assert_eq!(pace(5 * SECOND, 9 * SECOND), (9 * SECOND, 0));
}
