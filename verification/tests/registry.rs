use std::collections::HashMap;
use std::sync::Arc;

use keryx_miner::registry::{
    current_tier, install, installed, is_installed, is_loading, remove_device_entry,
    set_mining_tier, uninstall, Loading,
};

#[test]
fn remove_device_entry_only_clears_target_device() {
    let mut map: HashMap<u32, &str> = HashMap::new();
    map.insert(0, "gpu0-miner");
    map.insert(1, "gpu1-miner");
    map.insert(2, "gpu2-miner");
    remove_device_entry(&mut map, 0);
    assert!(!map.contains_key(&0));
    assert_eq!(map.get(&1), Some(&"gpu1-miner"));
    assert_eq!(map.get(&2), Some(&"gpu2-miner"));
    assert_eq!(map.len(), 2);
}

#[test]
fn remove_device_entry_on_missing_device_is_a_no_op() {
    let mut map: HashMap<u32, &str> = HashMap::new();
    map.insert(1, "gpu1-miner");
    remove_device_entry(&mut map, 0);
    assert_eq!(map.len(), 1);
    assert_eq!(map.get(&1), Some(&"gpu1-miner"));
}

#[test]
fn installing_and_uninstalling_touches_one_device() {
    let mut miners: HashMap<u32, Arc<&str>> = HashMap::new();
    install(&mut miners, 0, "first");
    install(&mut miners, 1, "other");
    install(&mut miners, 0, "second");
    assert!(is_installed(&miners, 0));
    assert!(!is_installed(&miners, 2));
    assert_eq!(installed(&miners, 0).map(|m| **m), Some("second"));
    uninstall(&mut miners, 0);
    assert!(!is_installed(&miners, 0));
    assert_eq!(installed(&miners, 1).map(|m| **m), Some("other"));
    assert_eq!(miners.len(), 1);
}

#[test]
fn first_mining_tier_stays() {
    let mut tier = None;
    assert_eq!(current_tier(&tier, 5, |_, _| Some(9)), None);
    set_mining_tier(&mut tier, [1; 32], "one.gguf".into());
    set_mining_tier(&mut tier, [2; 32], "two.gguf".into());
    assert_eq!(tier, Some(([1; 32], "one.gguf".to_string())));
    let index = |id: &[u8; 32], daa: u64| if *id == [1; 32] && daa > 10 { Some(3) } else { None };
    assert_eq!(current_tier(&tier, 11, index), Some(3));
    assert_eq!(current_tier(&tier, 10, index), None);
}

#[test]
fn loading_lasts_until_every_load_has_ended() {
    let mut loading = Loading::new();
    assert!(!is_loading(&loading));
    loading.begin();
    loading.begin();
    loading.end();
    assert!(is_loading(&loading));
    loading.end();
    assert!(!is_loading(&loading));
}
