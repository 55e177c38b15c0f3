use keryx_miner::metal_worker::{MetalWorker, MetalWorkerSpec};

#[test]
fn the_label_names_device_zero() {
    let label = MetalWorkerSpec.id();
    assert_eq!(label, "#0 Apple GPU (Metal)");
    let device: u32 =
        label.trim_start_matches('#').split_whitespace().next().unwrap().parse().unwrap();
    assert_eq!(device, 0);
    assert_eq!(MetalWorkerSpec.build().id(), label);
}

#[test]
fn a_metal_worker_hashes_nothing() {
    let mut worker = MetalWorker;
    worker.load_block_constants(&[0; 72], &[[0; 64]; 64], &[0; 4]);
    worker.calculate_hash(None, 0, 0);
    assert_eq!(worker.sync::<()>(), Ok(()));
    assert_eq!(worker.get_workload(), 0);
    let mut nonces = vec![1, 2];
    assert_eq!(worker.copy_output_to::<()>(&mut nonces), Ok(()));
    assert_eq!(nonces, vec![1, 2]);
}
