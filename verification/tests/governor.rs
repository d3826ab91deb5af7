use prism::config::GovernorConfig;
use prism::governor::{Driver, Governor, Reading, Tier};

/// One second, in the nanoseconds that the governor reckons in.
const SECOND: u64 = 1_000_000_000;

fn gov() -> Governor {
    Governor::new(GovernorConfig::default())
}

/// A comfortable reading: no stall, plenty of memory, plenty of disk, and
/// governed workloads within their VRAM budget.
fn calm() -> Reading {
    Reading {
        stall_full: 0,
        headroom_mib: 64_000,
        disk_free_mib: Some(500_000),
        vram_overdraft_mib: Some(0),
        spill_liability_mib: Some(0),
    }
}

#[test]
fn starts_green() {
    let g = gov();
    assert_eq!(g.tier(), Tier::Green);
    assert_eq!(g.driver(), Driver::Nothing);
}

#[test]
fn worst_signal_wins() {
    let g = gov();
    // Calm stall and ample disk, but almost no memory headroom.
    let (tier, driver) = g.instantaneous(&Reading {
        headroom_mib: 100,
        ..calm()
    });
    assert_eq!(tier, Tier::Black);
    assert_eq!(driver, Driver::Headroom);

    // Ample everything except stall.
    let (tier, driver) = g.instantaneous(&Reading {
        stall_full: 900_000_000,
        ..calm()
    });
    assert_eq!(tier, Tier::Black);
    assert_eq!(driver, Driver::Stall);
}

#[test]
fn disk_alone_can_drive_the_tier() {
    // Memory perfectly healthy, disk nearly full, and the machine about to
    // fail every write.
    let g = gov();
    let (tier, driver) = g.instantaneous(&Reading {
        disk_free_mib: Some(100),
        ..calm()
    });
    assert_eq!(tier, Tier::Black);
    assert_eq!(driver, Driver::Disk);
}

#[test]
fn absent_disk_sensing_never_manufactures_pressure() {
    let g = gov();
    let (tier, _) = g.instantaneous(&Reading {
        disk_free_mib: None,
        ..calm()
    });
    assert_eq!(tier, Tier::Green);
}

#[test]
fn vram_overdraft_alone_can_drive_the_tier() {
    // The contention this exists for: host memory and disk perfectly
    // healthy, and a game has taken most of the card out from under a
    // resident model stack.
    let g = gov();
    let (tier, driver) = g.instantaneous(&Reading {
        vram_overdraft_mib: Some(6_600),
        ..calm()
    });
    assert_eq!(tier, Tier::Black);
    assert_eq!(driver, Driver::Vram);
}

#[test]
fn a_small_overdraft_asks_for_the_smallest_shed() {
    let g = gov();
    let (tier, driver) = g.instantaneous(&Reading {
        vram_overdraft_mib: Some(600),
        ..calm()
    });
    assert_eq!(tier, Tier::Amber);
    assert_eq!(driver, Driver::Vram);
}

#[test]
fn absent_gpu_sensing_never_manufactures_pressure() {
    let g = gov();
    let (tier, _) = g.instantaneous(&Reading {
        vram_overdraft_mib: None,
        ..calm()
    });
    assert_eq!(tier, Tier::Green);
}

#[test]
fn a_full_card_of_our_own_models_is_green() {
    // 11.8 GiB resident of a 12.29 GiB card, nothing foreign running. The
    // sensor computes no overdraft, so the governor sees no pressure —
    // which is the whole point of governing foreign demand rather than
    // free memory. Shedding here would destroy the latency budget in
    // order to protect nobody.
    let g = gov();
    let (tier, driver) = g.instantaneous(&Reading {
        vram_overdraft_mib: Some(0),
        ..calm()
    });
    assert_eq!(tier, Tier::Green);
    assert_eq!(driver, Driver::Nothing);
}

#[test]
fn vram_is_named_over_a_coincident_signal_because_it_is_the_actionable_one() {
    // Disk and VRAM both reach Black. The operator can do something about
    // the models in seconds; the disk is a separate problem.
    let g = gov();
    let (tier, driver) = g.instantaneous(&Reading {
        disk_free_mib: Some(100),
        vram_overdraft_mib: Some(6_600),
        ..calm()
    });
    assert_eq!(tier, Tier::Black);
    assert_eq!(driver, Driver::Vram);
}

#[test]
fn a_spill_that_would_be_survivable_is_not_reported() {
    // 9 GiB of headroom and 4 GiB that could land in it. Afterwards there
    // would be 5 GiB left, which is a working machine. Warning here is how
    // a signal becomes furniture.
    let g = gov();
    let (tier, driver) = g.instantaneous(&Reading {
        headroom_mib: 9_216,
        spill_liability_mib: Some(4_096),
        ..calm()
    });
    assert_eq!(tier, Tier::Green);
    assert_eq!(driver, Driver::Nothing);
}

#[test]
fn a_spill_that_would_not_be_survivable_is_caught_before_it_happens() {
    // The case this signal exists for. Host memory looks healthy — 5 GiB of
    // honest headroom is comfortably Green — and the card looks healthy
    // too. But ComfyUI is holding 4.5 GiB of VRAM it answers pressure by
    // moving into RAM, which would leave 500 MiB. Every other signal here
    // reads Green right up until the transfer, and then reads Black.
    let g = gov();
    let r = Reading {
        headroom_mib: 5_120,
        spill_liability_mib: Some(4_608),
        ..calm()
    };
    assert_eq!(g.instantaneous(&Reading { spill_liability_mib: None, ..r }).0, Tier::Green);
    let (tier, driver) = g.instantaneous(&r);
    assert_eq!(tier, Tier::Black);
    assert_eq!(driver, Driver::Spill);
}

#[test]
fn a_facet_that_cannot_spill_owes_nothing() {
    // A resident model stack holding most of the card creates no liability,
    // because it fails an allocation rather than migrating out of one.
    // Counting its VRAM here would produce a permanent phantom debt — the
    // same misreading the VRAM sensor exists to avoid.
    let g = gov();
    let (tier, _) = g.instantaneous(&Reading {
        headroom_mib: 5_120,
        spill_liability_mib: Some(0),
        ..calm()
    });
    assert_eq!(tier, Tier::Green);
}

#[test]
fn absent_gpu_sensing_owes_nothing_either() {
    let g = gov();
    let (tier, _) = g.instantaneous(&Reading {
        headroom_mib: 700,
        spill_liability_mib: None,
        ..calm()
    });
    // 700 MiB is under the 1536 MiB Red floor and over the 512 MiB Black
    // one — so still Red, driven by headroom itself rather than by a
    // hypothesis about a card nobody is watching.
    assert_eq!(tier, Tier::Red);
}

#[test]
fn headroom_after_spill_never_underflows() {
    let r = Reading { headroom_mib: 100, spill_liability_mib: Some(9_000), ..calm() };
    assert_eq!(r.headroom_after_spill_mib(), 0);
}

#[test]
fn the_spill_is_named_over_a_coincident_signal_because_it_explains_the_others() {
    // Disk is also Black. The operator can stop a workload from spilling in
    // seconds; the disk is a separate problem, and naming it here would
    // send them after the wrong one.
    let g = gov();
    let (tier, driver) = g.instantaneous(&Reading {
        headroom_mib: 5_120,
        spill_liability_mib: Some(4_608),
        disk_free_mib: Some(100),
        ..calm()
    });
    assert_eq!(tier, Tier::Black);
    assert_eq!(driver, Driver::Spill);
}

#[test]
fn calm_readings_are_green() {
    let g = gov();
    assert_eq!(g.instantaneous(&calm()).0, Tier::Green);
}

#[test]
fn transient_spike_does_not_change_tier() {
    let mut g = gov();
    let t0: u64 = 5 * SECOND;
    let bad = Reading {
        headroom_mib: 100,
        ..calm()
    };
    assert!(g.observe_at(&bad, t0).is_none());
    // Recovered before the sustain window elapsed.
    assert!(g.observe_at(&calm(), t0 + 2 * SECOND).is_none());
    assert_eq!(g.tier(), Tier::Green);
}

#[test]
fn sustained_pressure_escalates() {
    let mut g = gov();
    let t0: u64 = 5 * SECOND;
    let bad = Reading {
        headroom_mib: 100,
        ..calm()
    };
    assert!(g.observe_at(&bad, t0).is_none());
    assert_eq!(
        g.observe_at(&bad, t0 + 11 * SECOND),
        Some(Tier::Black)
    );
    assert_eq!(g.tier(), Tier::Black);
    assert_eq!(g.driver(), Driver::Headroom);
}

#[test]
fn recovery_also_requires_sustain() {
    let mut g = gov();
    let t0: u64 = 5 * SECOND;
    let bad = Reading {
        headroom_mib: 100,
        ..calm()
    };
    g.observe_at(&bad, t0);
    g.observe_at(&bad, t0 + 11 * SECOND);
    assert_eq!(g.tier(), Tier::Black);

    let t1 = t0 + 20 * SECOND;
    assert!(g.observe_at(&calm(), t1).is_none());
    assert_eq!(
        g.observe_at(&calm(), t1 + 11 * SECOND),
        Some(Tier::Green)
    );
}

#[test]
fn changing_target_tier_restarts_the_sustain_clock() {
    let mut g = gov();
    let t0: u64 = 5 * SECOND;
    let red = Reading {
        stall_full: 250_000_000,
        ..calm()
    };
    let amber = Reading {
        stall_full: 100_000_000,
        ..calm()
    };
    g.observe_at(&red, t0);
    g.observe_at(&amber, t0 + 9 * SECOND);
    assert!(g.observe_at(&amber, t0 + 12 * SECOND).is_none());
    assert_eq!(
        g.observe_at(&amber, t0 + 20 * SECOND),
        Some(Tier::Amber)
    );
}

#[test]
fn no_event_emitted_while_tier_is_stable() {
    let mut g = gov();
    let t0: u64 = 5 * SECOND;
    for i in 0..10 {
        assert!(g.observe_at(&calm(), t0 + i * SECOND).is_none());
    }
}

#[test]
fn thresholds_are_exact_at_their_edges() {
    // A stall counts from its threshold upwards, headroom from its floor
    // downwards, and an overdraft from its threshold upwards.
    let cfg = GovernorConfig::default();
    let (stall, floor, debt) = (cfg.amber_stall, cfg.amber_headroom_mib, cfg.amber_vram_overdraft_mib);
    let g = gov();
    assert_eq!(g.instantaneous(&Reading { stall_full: stall, ..calm() }).0, Tier::Amber);
    assert_eq!(g.instantaneous(&Reading { stall_full: stall - 1, ..calm() }).0, Tier::Green);
    assert_eq!(g.instantaneous(&Reading { headroom_mib: floor, ..calm() }).0, Tier::Amber);
    assert_eq!(g.instantaneous(&Reading { headroom_mib: floor + 1, ..calm() }).0, Tier::Green);
    assert_eq!(g.instantaneous(&Reading { vram_overdraft_mib: Some(debt), ..calm() }).0, Tier::Amber);
    assert_eq!(g.instantaneous(&Reading { vram_overdraft_mib: Some(debt - 1), ..calm() }).0, Tier::Green);
}

#[test]
fn a_change_comes_at_the_end_of_the_sustain_window_and_not_before() {
    let sustain = GovernorConfig::default().sustain_secs * SECOND;
    let bad = Reading { headroom_mib: 100, ..calm() };
    let mut g = gov();
    assert!(g.observe_at(&bad, 7).is_none());
    assert!(g.observe_at(&bad, 7 + sustain - 1).is_none());
    assert_eq!(g.observe_at(&bad, 7 + sustain), Some(Tier::Black));
    assert!(g.observe_at(&bad, 7 + sustain + 1).is_none());
}

#[test]
fn tiers_and_drivers_have_names() {
    assert_eq!(Tier::Green.as_str(), "green");
    assert_eq!(Tier::Amber.as_str(), "amber");
    assert_eq!(Tier::Red.as_str(), "red");
    assert_eq!(Tier::Black.as_str(), "black");
    assert!(Tier::Green < Tier::Amber && Tier::Amber < Tier::Red && Tier::Red < Tier::Black);
    assert_eq!(Driver::Spill.as_str(), "Spill");
    assert_eq!(Tier::default(), Tier::Green);
}

#[test]
fn the_first_look_of_the_running_clock_changes_nothing() {
    let mut g = gov();
    assert!(g.observe(&Reading { headroom_mib: 100, ..calm() }).is_none());
    assert_eq!(g.tier(), Tier::Green);
}

#[test]
fn one_calm_sample_starts_the_window_anew() {
    let mut g = gov();
    let bad = Reading {
        headroom_mib: 100,
        ..calm()
    };
    for s in 1..10 {
        assert_eq!(g.observe_at(&bad, s * SECOND), None);
    }
    assert_eq!(g.observe_at(&calm(), 10 * SECOND), None);
    for s in 11..21 {
        assert_eq!(g.observe_at(&bad, s * SECOND), None, "{s}");
    }
    assert_eq!(g.observe_at(&bad, 21 * SECOND), Some(Tier::Black));
}
