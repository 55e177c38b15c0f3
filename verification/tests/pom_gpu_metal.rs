use std::collections::HashMap;
use std::sync::Arc;

use candle_core::quantized::{GgmlDType, QTensor};
use candle_core::{Device, Tensor};
use keryx_miner::pom_gpu::{load_concatenated, LoadError};
use keryx_miner::pom_gpu_metal::{
    mine, mined, pack, winner, MineError, PomGpuMiner, THREADGROUP_SIZE,
};

/// A tensor on the host that holds the numbers from `first` on, four bytes each.
fn tensor(first: usize, len: usize) -> QTensor {
    let numbers: Vec<f32> = (first..first + len).map(|i| i as f32).collect();
    let t = Tensor::from_vec(numbers, len, &Device::Cpu).unwrap();
    QTensor::quantize(&t, GgmlDType::F32).unwrap()
}

fn bytes(first: usize, len: usize) -> Vec<u8> {
    (first..first + len).flat_map(|i| (i as f32).to_le_bytes()).collect()
}

#[test]
fn load_packs_whole_chunks_only() {
    let m = PomGpuMiner::load(vec![tensor(0, 10), tensor(50, 7), tensor(100, 16)]).unwrap();
    let mut expected = bytes(0, 8);
    expected.extend(bytes(100, 16));
    assert_eq!(m.weights, expected);
    assert_eq!(m.n_chunks(), 3);
    assert_eq!(m.tensors.len(), 3);
}

#[test]
fn pack_keeps_whole_chunks_in_order() {
    let data = vec![vec![1u8; 40], vec![2; 31], vec![], vec![3; 64]];
    let (weights, n) = pack(data).unwrap();
    let mut expected = vec![1u8; 32];
    expected.extend(vec![3u8; 64]);
    assert_eq!(weights, expected);
    assert_eq!(n, 3);
}

#[test]
fn pack_without_chunks_gives_nothing() {
    assert!(pack(vec![]).is_none());
    assert!(pack(vec![vec![1; 31], vec![2; 31]]).is_none());
}

/// What a kernel answers that finds the lowest of the winning nonces.
fn kernel(winning: &[u64], start: u64, batch: u64) -> u32 {
    (0..batch).find(|k| winning.contains(&(start + k))).map_or(u32::MAX, |k| k as u32)
}

#[test]
fn a_batch_can_be_searched_in_two_parts() {
    for winning in [vec![], vec![103], vec![107], vec![103, 107], vec![99, 110], vec![105, 109]] {
        let search = |start, batch| winner(start, kernel(&winning, start, batch));
        for a in 1..10 {
            assert_eq!(search(100, 10), search(100, a).or(search(100 + a, 10 - a)));
        }
    }
}

#[test]
fn packing_without_chunks_fails() {
    assert!(matches!(PomGpuMiner::load(vec![tensor(0, 7)]), Err(LoadError::NoChunks)));
    assert!(matches!(PomGpuMiner::load(vec![]), Err(LoadError::NoChunks)));
}

#[test]
fn packed_and_concatenated_layouts_hold_the_same_chunks() {
    let shapes = [(0usize, 10usize), (50, 7), (100, 16), (200, 9)];
    let m = PomGpuMiner::load(shapes.iter().map(|&(f, n)| tensor(f, n)).collect()).unwrap();
    let sizes: Vec<usize> = shapes.iter().map(|&(_, n)| 4 * n).collect();
    let load = load_concatenated(&sizes).unwrap();
    let mut buffer = vec![0u8; load.total_bytes as usize];
    for (i, &(f, n)) in shapes.iter().enumerate() {
        if let Some(at) = load.copy_to[i] {
            buffer[at as usize..at as usize + 4 * n].copy_from_slice(&bytes(f, n));
        }
    }
    let table = &load.miner.table;
    assert_eq!(m.n_chunks(), load.miner.n_chunks());
    for off in 0..m.n_chunks() {
        let t = (0..table.bases.len())
            .find(|&t| table.prefix[t] <= off && off < table.prefix[t + 1])
            .unwrap();
        let at = (table.bases[t] + 32 * (off - table.prefix[t])) as usize;
        let flat = 32 * off as usize;
        assert_eq!(m.weights[flat..flat + 32], buffer[at..at + 32]);
    }
}

fn miner() -> PomGpuMiner<&'static str> {
    PomGpuMiner::load(vec![tensor(0, 16)]).unwrap().on_device("buffer")
}

#[test]
fn metal_mine_passes_the_job_to_the_kernel() {
    let mut hash = [0u8; 32];
    hash[8] = 9;
    let launch = miner().mine(&hash, 77, &[0xff; 32], 1000, 300).unwrap().unwrap();
    assert_eq!(launch.uniforms.n_total_chunks, 2);
    assert_eq!(launch.uniforms.k_steps, 256);
    assert_eq!(launch.uniforms.p, [0, 9, 0, 0]);
    assert_eq!(launch.uniforms.time, 77);
    assert_eq!(launch.uniforms.t, [u64::MAX; 4]);
    assert_eq!(launch.uniforms.nonce_base, 1000);
    assert_eq!(launch.uniforms.n_nonces, 300);
    assert_eq!(launch.threads, 300);
    assert_eq!(launch.group, THREADGROUP_SIZE);
    assert_eq!(launch.winner, u32::MAX);
}

#[test]
fn batches_have_to_fit() {
    let m = miner();
    let r = m.mine(&[0; 32], 0, &[0; 32], 0, 1 << 32);
    assert!(matches!(r, Err(MineError::BatchTooLarge)));
    assert!(matches!(m.mine(&[0; 32], 0, &[0; 32], 0, 0), Ok(None)));
    assert!(matches!(m.mine(&[0; 32], 0, &[0; 32], 0, u32::MAX as u64), Ok(Some(_))));
}

#[test]
fn only_installed_miners_mine() {
    let mut miners = HashMap::new();
    miners.insert(0u32, Arc::new(miner()));
    let (m, launch) = mine(&miners, 0, &[0; 32], 5, &[0; 32], 10, 512).unwrap();
    assert_eq!(m.weights, "buffer");
    assert_eq!(launch.threads, 512);
    assert!(mine(&miners, 1, &[0; 32], 5, &[0; 32], 10, 512).is_none());
    assert!(mine(&miners, 0, &[0; 32], 5, &[0; 32], 10, 0).is_none());
    assert!(mine(&miners, 0, &[0; 32], 5, &[0; 32], 10, 1 << 40).is_none());
}

#[test]
fn winner_is_a_place_in_the_batch() {
    assert_eq!(winner(1000, u32::MAX), None);
    assert_eq!(winner(1000, 0), Some(1000));
    assert_eq!(mined::<()>(1000, Ok(24)), Some(1024));
    assert_eq!(mined::<()>(1000, Ok(u32::MAX)), None);
    assert_eq!(mined::<()>(1000, Err(())), None);
}
