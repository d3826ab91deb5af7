use prism::sensors::gpu::{facet_of_cgroup, parse_memory, parse_process, parse_processes, GpuMemory, GpuProcess, GpuSnapshot};

/// `used` is the card's own occupancy, which is always at least the sum of
/// the processes named and usually more.
fn snapshot(total: u64, used: u64, procs: &[(u64, bool)]) -> GpuSnapshot {
    GpuSnapshot {
        memory: GpuMemory {
            total_mib: total,
            used_mib: used,
            free_mib: total.saturating_sub(used),
        },
        processes: procs
            .iter()
            .enumerate()
            .map(|(i, (used, ours))| GpuProcess {
                pid: i as u32 + 1,
                used_mib: *used,
                name: "t".into(),
                owner: if *ours { Some("stargazer".to_string()) } else { None },
            })
            .collect(),
    }
}

#[test]
fn our_own_models_do_not_count_against_us() {
    // 6 GiB of a bare card, all of it Prism's. Nothing foreign, so the
    // whole card less the reserve is ours to use and there is no
    // overdraft — which is the point of governing foreign demand rather
    // than free memory.
    let s = snapshot(12288, 6144, &[(6144, true)]);
    assert_eq!(s.foreign_mib(), 0);
    assert_eq!(s.budget_mib(1024), 12288 - 1024);
    assert_eq!(s.overdraft_mib(1024), 0);
}

#[test]
fn unattributed_vram_counts_as_foreign() {
    // Measured at idle on this host: the card reports 1149 MiB used while
    // the process query itemises 182. Summing processes would call the
    // other 967 free. It is not.
    let s = snapshot(12288, 1149, &[(154, false), (22, false), (6, false)]);
    assert_eq!(s.foreign_mib(), 1149);
}

#[test]
fn a_foreign_process_creates_the_overdraft() {
    // We hold 6 GiB. A game arrives and takes the rest of the card, so
    // foreign use is now 6 GiB too. Our budget is what remains after the
    // foreigner and the reserve — 5 GiB — so a gigabyte has to go back.
    //
    // Note what the card reports while this is true: zero free. The
    // overdraft is not derived from that number and must not be, because
    // a full card says nothing about who can give.
    let s = snapshot(12288, 12288, &[(6144, true)]);
    assert_eq!(s.foreign_mib(), 6144);
    assert_eq!(s.budget_mib(1024), 5120);
    assert_eq!(s.overdraft_mib(1024), 1024);
}

#[test]
fn the_reserve_is_what_makes_shedding_early_rather_than_late() {
    // Nothing foreign is running and we still may not fill the card: the
    // allocation that fails is the one nobody has made yet.
    let s = snapshot(12288, 12288, &[(12288, true)]);
    assert_eq!(s.overdraft_mib(1024), 1024);
    assert_eq!(s.overdraft_mib(0), 0);
}

#[test]
fn the_full_resident_stack_does_not_fit_a_working_desktop() {
    // The measurement this whole ladder exists because of. All three
    // models resident peaked at 11.80 GiB of a 12.29 GiB card — which fit,
    // but only with the screen doing nothing. An idle KDE session on this
    // same card holds 1.12 GiB before anything else starts.
    const STACK_MIB: u64 = 11_800;
    const IDLE_DESKTOP_MIB: u64 = 1_149;
    const CARD_MIB: u64 = 12_288;
    assert!(STACK_MIB + IDLE_DESKTOP_MIB > CARD_MIB);

    // So the reachable state is: desktop up, and as much of the stack as
    // the budget allows. The governor is not an exception path here — it
    // is how the product runs at rest.
    let ours = CARD_MIB - IDLE_DESKTOP_MIB;
    let s = snapshot(CARD_MIB, CARD_MIB, &[(ours, true)]);
    assert_eq!(s.foreign_mib(), IDLE_DESKTOP_MIB);
    assert_eq!(s.overdraft_mib(1024), 1024);
}

#[test]
fn a_process_name_containing_a_comma_survives_parsing() {
    let p = parse_process("1234, 512, /opt/my, app/bin/run").unwrap();
    assert_eq!(p.pid, 1234);
    assert_eq!(p.used_mib, 512);
    assert_eq!(p.name, "/opt/my, app/bin/run");
}

#[test]
fn a_scope_is_not_mistaken_for_a_service_named_facet_something() {
    // `prism-facet-comfyui.scope` also starts with `prism-`, so trying the
    // service pattern first would attribute its VRAM to a facet called
    // `facet-comfyui` that does not exist — and the spill liability for the
    // real ComfyUI would read as zero.
    assert_eq!(
        facet_of_cgroup("0::/user.slice/user-1000.slice/prism-facet-comfyui.scope"),
        Some("comfyui".into())
    );
    assert_eq!(
        facet_of_cgroup("0::/user.slice/user-1000.slice/prism-comfyui.service"),
        Some("comfyui".into())
    );
    assert_eq!(facet_of_cgroup("0::/user.slice/app.slice/firefox.scope"), None);
}

#[test]
fn vram_is_summed_across_every_process_a_facet_forked() {
    let s = GpuSnapshot {
        memory: GpuMemory { total_mib: 12288, used_mib: 5000, free_mib: 7288 },
        processes: vec![
            GpuProcess { pid: 1, used_mib: 3000, name: "a".into(), owner: Some("comfyui".into()) },
            GpuProcess { pid: 2, used_mib: 1500, name: "b".into(), owner: Some("comfyui".into()) },
            GpuProcess { pid: 3, used_mib: 500, name: "c".into(), owner: Some("llama".into()) },
        ],
    };
    assert_eq!(s.facet_mib("comfyui"), 4500);
    assert_eq!(s.facet_mib("llama"), 500);
    assert_eq!(s.facet_mib("nothing"), 0);
}

#[test]
fn a_process_that_has_not_allocated_reads_as_zero_not_as_a_parse_failure() {
    let p = parse_process("99, [N/A], /usr/bin/x").unwrap();
    assert_eq!(p.used_mib, 0);
}

#[test]
fn the_first_card_is_read_from_its_report() {
    let m = parse_memory("12288, 1149, 11139\n8192, 0, 8192\n").unwrap();
    assert_eq!(m, GpuMemory { total_mib: 12288, used_mib: 1149, free_mib: 11139 });
    assert!(parse_memory("").is_none());
    assert!(parse_memory("12288, many, 3").is_none());
}

#[test]
fn a_line_that_is_no_process_is_none() {
    assert!(parse_process("not a pid, 5, /usr/bin/x").is_none());
    assert!(parse_process("").is_none());
}

#[test]
fn a_report_gives_its_processes_in_order() {
    let all = parse_processes("12, 300, /usr/bin/a\nnonsense\n7, [N/A], b\n");
    let told: Vec<(u32, u64, &str)> = all.iter().map(|p| (p.pid, p.used_mib, p.name.as_str())).collect();
    assert_eq!(told, vec![(12, 300, "/usr/bin/a"), (7, 0, "b")]);
    assert!(all.iter().all(|p| !p.ours()));
}

#[test]
fn a_process_is_ours_when_it_has_an_owner() {
    let s = snapshot(100, 50, &[(10, true), (20, false)]);
    assert!(s.countable());
    assert!(s.processes[0].ours());
    assert!(!s.processes[1].ours());
    assert_eq!(s.ours_mib(), 10);
}
