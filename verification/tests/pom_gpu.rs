use std::collections::HashMap;
use std::sync::Arc;

use candle_core::quantized::{GgmlDType, QTensor};
use candle_core::{Device, Tensor};
use keryx_miner::layout::TensorSpan;
use keryx_miner::pom_gpu::{
    assemble, contents, load_concatenated, mine, mined, shared_position, winner, LoadError,
    PomGpuMiner, TensorSource, GROUP_SIZE, POM_WALK_STEPS,
};

/// A tensor on the host that holds the numbers from `first` on, four bytes each.
fn tensor(first: usize, len: usize) -> QTensor {
    let numbers: Vec<f32> = (first..first + len).map(|i| i as f32).collect();
    let t = Tensor::from_vec(numbers, len, &Device::Cpu).unwrap();
    QTensor::quantize(&t, GgmlDType::F32).unwrap()
}

fn bytes(first: usize, len: usize) -> Vec<u8> {
    (first..first + len).flat_map(|i| (i as f32).to_le_bytes()).collect()
}

#[test]
fn assemble_gathers_the_tensors_with_chunks() {
    let spans = vec![
        TensorSpan { bytes: 100, base: 7000 },
        TensorSpan { bytes: 31, base: 8000 },
        TensorSpan { bytes: 64, base: 9000 },
    ];
    let m = assemble(&spans).unwrap();
    assert_eq!(m.table.bases, vec![7000, 9000]);
    assert_eq!(m.table.prefix, vec![0, 3, 5]);
    assert_eq!(m.t_count, 2);
    assert_eq!(m.n_chunks(), 5);
}

#[test]
fn assemble_without_chunks_gives_nothing() {
    assert!(assemble(&vec![]).is_none());
    assert!(assemble(&vec![TensorSpan { bytes: 31, base: 1 }]).is_none());
}

#[test]
fn load_without_chunks_asks_no_device() {
    let r = PomGpuMiner::load(vec![tensor(0, 7), tensor(0, 3)]);
    assert!(matches!(r, Err(LoadError::NoChunks)));
    let r = PomGpuMiner::load(vec![]);
    assert!(matches!(r, Err(LoadError::NoChunks)));
}

#[test]
fn load_needs_a_device_address() {
    let r = PomGpuMiner::load(vec![tensor(0, 7), tensor(0, 8)]);
    assert!(matches!(r, Err(LoadError::Tensor(_))));
}

#[test]
fn load_shared_needs_an_address_for_every_shared_tensor() {
    let r = PomGpuMiner::load_shared(vec![TensorSource::Raw(tensor(0, 7))]);
    assert!(matches!(r, Err(LoadError::NoChunks)));
    let r = PomGpuMiner::load_shared(vec![TensorSource::Shared(Arc::new(tensor(0, 7)))]);
    assert!(matches!(r, Err(LoadError::Tensor(_))));
}

#[test]
fn contents_are_the_quantized_bytes() {
    assert_eq!(contents(&tensor(5, 9)).unwrap(), bytes(5, 9));
}

#[test]
fn load_concatenated_places_each_tensor() {
    let load = load_concatenated(&vec![40, 31, 0, 32, 95]).unwrap();
    assert_eq!(load.copy_to, vec![Some(0), None, None, Some(40), Some(72)]);
    assert_eq!(load.total_bytes, 167);
    assert_eq!(load.miner.table.bases, vec![0, 40, 72]);
    assert_eq!(load.miner.table.prefix, vec![0, 1, 2, 4]);
    assert_eq!(load.miner.t_count, 3);
    assert_eq!(load.miner.n_chunks(), 4);
    assert!(32 * load.miner.n_chunks() <= load.total_bytes);
}

#[test]
fn load_concatenated_rejects_what_it_cannot_count() {
    assert!(matches!(load_concatenated(&vec![1, 2]), Err(LoadError::NoChunks)));
    let huge = load_concatenated(&vec![usize::MAX, 32]);
    assert!(matches!(huge, Err(LoadError::TooLarge)));
}

#[test]
fn shared_position_finds_the_name() {
    let names: Vec<String> = vec!["b".into(), "a".into(), "c".into(), "a".into()];
    assert_eq!(shared_position(&names, &"a".to_string()), Some(1));
    assert_eq!(shared_position(&names, &"d".to_string()), None);
}

fn miner() -> PomGpuMiner<&'static str> {
    let spans = vec![TensorSpan { bytes: 100, base: 7000 }, TensorSpan { bytes: 64, base: 9000 }];
    assemble(&spans).unwrap().on_device("gpu")
}

#[test]
fn mine_passes_the_job_to_the_kernel() {
    let mut hash = [0u8; 32];
    hash[0] = 1;
    hash[15] = 2;
    hash[31] = 0x80;
    let target = [0xffu8; 32];
    let launch = miner().mine(&hash, 77, &target, 1000, 257);
    assert_eq!(launch.params.t_count, 2);
    assert_eq!(launch.params.k_steps, POM_WALK_STEPS);
    assert_eq!(launch.params.n_total_chunks, 5);
    assert_eq!(launch.params.p, [1, 2 << 56, 0, 0x80 << 56]);
    assert_eq!(launch.params.time, 77);
    assert_eq!(launch.params.t, [u64::MAX; 4]);
    assert_eq!(launch.params.nonce_base, 1000);
    assert_eq!(launch.params.n_nonces, 257);
    assert_eq!(launch.groups, 2);
    assert_eq!(launch.grid, 2);
    assert_eq!(launch.winner, u64::MAX);
}

#[test]
fn launches_cover_their_batch() {
    let m = miner();
    for batch in [0u64, 1, 255, 256, 257, 1 << 20] {
        let launch = m.mine(&[0; 32], 0, &[0; 32], 0, batch);
        assert!(launch.groups * GROUP_SIZE >= batch);
        assert!(launch.groups == 0 || (launch.groups - 1) * GROUP_SIZE < batch);
    }
    let wide = m.mine(&[0; 32], 0, &[0; 32], 0, 1 << 41);
    assert_eq!(wide.groups, 1 << 33);
    assert_eq!(wide.grid, 0);
}

#[test]
fn mine_goes_to_the_installed_miner() {
    let mut miners = HashMap::new();
    miners.insert(3u32, Arc::new(miner()));
    let (m, launch) = mine(&miners, 3, &[0; 32], 5, &[0; 32], 10, 512).unwrap();
    assert_eq!(m.device, "gpu");
    assert_eq!(launch.groups, 2);
    assert!(mine(&miners, 0, &[0; 32], 5, &[0; 32], 10, 512).is_none());
}

#[test]
fn winner_word_tells_the_nonce() {
    assert_eq!(winner(u64::MAX), None);
    assert_eq!(winner(0), Some(0));
    assert_eq!(mined::<()>(Ok(42)), Some(42));
    assert_eq!(mined::<()>(Ok(u64::MAX)), None);
    assert_eq!(mined::<&str>(Err("launch failed")), None);
}
