use std::collections::HashMap;
use std::sync::Arc;

use keryx_miner::install::{
    ensure_installed, ensure_installed_inner, GpuBackend, InstallEvent, InstallStep, Installation,
};
use keryx_miner::journal::LogLevel;
use keryx_miner::registry::Loading;

/// Goes through an installation with the given events, and gives the steps.
fn steps(mut i: Installation, events: Vec<InstallEvent>) -> Vec<InstallStep> {
    let mut steps = vec![i.step];
    for event in events {
        i.advance(event);
        steps.push(i.step);
    }
    steps
}

#[test]
fn an_installed_device_needs_nothing() {
    let mut miners = HashMap::new();
    miners.insert(0u32, Arc::new("miner"));
    let mut loading = Loading::new();
    assert!(ensure_installed(&miners, &mut loading, 0, GpuBackend::Cuda, true).is_none());
    assert_eq!(loading.count, 0);
    let i = ensure_installed(&miners, &mut loading, 1, GpuBackend::Cuda, true).unwrap();
    assert_eq!(loading.count, 1);
    assert_eq!(i.device_id, 1);
    assert_eq!(i.step, InstallStep::CheckIndex);
}

#[test]
fn without_a_mining_tier_installing_fails() {
    assert_eq!(ensure_installed_inner(0, GpuBackend::Cuda, false).step, InstallStep::Done(false));
}

#[test]
fn the_index_is_built_under_the_lock_when_there_is_none() {
    let mut i = ensure_installed_inner(2, GpuBackend::Cuda, true);
    assert!(!i.holds_build_lock());
    i.advance(InstallEvent::Index(None));
    assert_eq!(i.step, InstallStep::CheckIndexLocked);
    assert!(i.holds_build_lock());
    i.advance(InstallEvent::Index(None));
    assert_eq!(i.step, InstallStep::FindTier);
    assert!(i.holds_build_lock());
    i.advance(InstallEvent::Tier(Some(4)));
    assert_eq!(i.step, InstallStep::BuildIndex(4));
    assert!(i.holds_build_lock());
    i.advance(InstallEvent::Built(Ok(90)));
    assert_eq!(i.step, InstallStep::PublishIndex(4));
    assert!(i.holds_build_lock());
    i.advance(InstallEvent::Published);
    assert_eq!(i.step, InstallStep::AskShared);
    assert!(!i.holds_build_lock());
    i.advance(InstallEvent::Resident(Some(Some(2))));
    assert_eq!(i.step, InstallStep::LoadShared);
    i.advance(InstallEvent::Loaded(Ok(90)));
    assert_eq!(i.step, InstallStep::CompareIndex(90));
    i.advance(InstallEvent::Index(Some(90)));
    assert_eq!(i.step, InstallStep::Install(90));
    i.advance(InstallEvent::Installed);
    assert_eq!(i.step, InstallStep::Done(true));
}

#[test]
fn a_second_look_under_the_lock_finds_the_index_of_another() {
    let s = steps(
        ensure_installed_inner(0, GpuBackend::MetalTable, true),
        vec![InstallEvent::Index(None), InstallEvent::Index(Some(7))],
    );
    assert_eq!(s.last(), Some(&InstallStep::Load));
}

#[test]
fn a_model_without_a_tier_is_not_installed() {
    let s = steps(
        ensure_installed_inner(0, GpuBackend::Cuda, true),
        vec![InstallEvent::Index(None), InstallEvent::Index(None), InstallEvent::Tier(None)],
    );
    assert_eq!(s.last(), Some(&InstallStep::Done(false)));
}

#[test]
fn a_failed_index_build_fails() {
    let s = steps(
        ensure_installed_inner(0, GpuBackend::Cuda, true),
        vec![
            InstallEvent::Index(None),
            InstallEvent::Index(None),
            InstallEvent::Tier(Some(1)),
            InstallEvent::Built(Err("bad".into())),
        ],
    );
    assert_eq!(s.last(), Some(&InstallStep::Done(false)));
}

#[test]
fn only_weights_on_the_same_gpu_are_shared() {
    for resident in [None, Some(None), Some(Some(1))] {
        let s = steps(
            ensure_installed_inner(0, GpuBackend::Cuda, true),
            vec![InstallEvent::Index(Some(5)), InstallEvent::Resident(resident)],
        );
        assert_eq!(s.last(), Some(&InstallStep::Load));
    }
}

#[test]
fn a_miner_that_differs_from_the_index_is_refused() {
    let s = steps(
        ensure_installed_inner(0, GpuBackend::MetalTable, true),
        vec![
            InstallEvent::Index(Some(5)),
            InstallEvent::Loaded(Ok(6)),
            InstallEvent::Index(Some(5)),
        ],
    );
    assert_eq!(s.last(), Some(&InstallStep::Done(false)));
}

#[test]
fn an_index_that_went_away_does_not_matter() {
    let s = steps(
        ensure_installed_inner(0, GpuBackend::MetalTable, true),
        vec![
            InstallEvent::Index(Some(5)),
            InstallEvent::Loaded(Ok(6)),
            InstallEvent::Index(None),
        ],
    );
    assert_eq!(s.last(), Some(&InstallStep::Install(6)));
}

#[test]
fn a_failed_load_fails() {
    let s = steps(
        ensure_installed_inner(0, GpuBackend::MetalTable, true),
        vec![InstallEvent::Index(Some(5)), InstallEvent::Loaded(Err("oom".into()))],
    );
    assert_eq!(s.last(), Some(&InstallStep::Done(false)));
}

/// Goes through a whole installation, and gives the lines of the log.
fn lines(backend: GpuBackend, loaded: Result<u64, String>) -> Vec<String> {
    let mut i = ensure_installed_inner(3, backend, true);
    let mut lines = Vec::new();
    loop {
        let event = match i.step {
            InstallStep::CheckIndex | InstallStep::CheckIndexLocked => InstallEvent::Index(None),
            InstallStep::FindTier => InstallEvent::Tier(Some(1)),
            InstallStep::BuildIndex(_) => InstallEvent::Built(Ok(90)),
            InstallStep::PublishIndex(_) => InstallEvent::Published,
            InstallStep::AskShared => InstallEvent::Resident(Some(Some(3))),
            InstallStep::Load | InstallStep::LoadShared => InstallEvent::Loaded(loaded.clone()),
            InstallStep::CompareIndex(_) => InstallEvent::Index(Some(90)),
            InstallStep::Install(_) => InstallEvent::Installed,
            InstallStep::Done(_) => return lines,
        };
        if let Some(line) = i.advance(event) {
            let level = if line.level == LogLevel::Error { "E" } else { "I" };
            lines.push(format!("{level} {}", line.text));
        }
    }
}

#[test]
fn an_installation_tells_what_it_does() {
    assert_eq!(
        lines(GpuBackend::Cuda, Ok(90)),
        vec![
            "I PoM: building shared host weight index (gpu3) — this can take a while…",
            "I PoM: shared host index ready — N=90 chunks",
            "I PoM[gpu3]: zero-dup — sharing the inference engine's resident weights (no 2nd VRAM copy)",
            "I PoM[gpu3]: GPU miner ready — N=90 chunks resident (matches shared index)",
        ]
    );
    assert_eq!(
        lines(GpuBackend::MetalTable, Ok(91))[1..],
        [
            "I PoM: shared host index ready — N=90 chunks",
            "E PoM[metal3]: gather N=91 != shared index N=90 — refusing to mine",
        ]
    );
    assert_eq!(
        lines(GpuBackend::MetalTable, Err("oom".into()))[2],
        "E PoM[metal3]: device miner build failed: oom"
    );
}

#[test]
fn the_packed_backend_has_texts_of_its_own() {
    assert_eq!(
        lines(GpuBackend::MetalPacked, Ok(90)),
        vec![
            "I PoM Metal: building shared host weight index (gpu3) — this can take a while…",
            "I PoM Metal: shared host index ready — N=90 chunks",
            "I PoM Metal[gpu3]: miner ready — N=90 chunks resident (matches shared index)",
        ]
    );
    assert_eq!(
        lines(GpuBackend::MetalPacked, Ok(1))[2],
        "E PoM Metal[gpu3]: packed N=1 != shared index N=90 — refusing to mine"
    );
    assert_eq!(
        lines(GpuBackend::MetalPacked, Err("oom".into()))[2],
        "E PoM Metal[gpu3]: load failed: oom"
    );
}

#[test]
fn a_failed_index_build_is_told() {
    let mut i = ensure_installed_inner(0, GpuBackend::MetalPacked, true);
    i.advance(InstallEvent::Index(None));
    i.advance(InstallEvent::Index(None));
    i.advance(InstallEvent::Tier(Some(1)));
    let line = i.advance(InstallEvent::Built(Err("bad file".into()))).unwrap();
    assert_eq!(line.level, LogLevel::Error);
    assert_eq!(line.text, "PoM Metal: shared host index build failed on gpu0: bad file");
}
