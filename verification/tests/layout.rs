use keryx_miner::layout::{concatenate, gather, TensorSpan};

#[test]
fn gather_skips_tensors_without_a_chunk() {
    let spans = vec![
        TensorSpan { bytes: 0, base: 1 },
        TensorSpan { bytes: 32, base: 2 },
        TensorSpan { bytes: 31, base: 3 },
        TensorSpan { bytes: 127, base: 4 },
    ];
    let table = gather(&spans);
    assert_eq!(table.bases, vec![2, 4]);
    assert_eq!(table.prefix, vec![0, 1, 4]);
    assert_eq!(table.n_chunks(), 4);
}

#[test]
fn gather_of_nothing_is_an_empty_table() {
    let table = gather(&vec![]);
    assert!(table.bases.is_empty());
    assert_eq!(table.prefix, vec![0]);
    assert_eq!(table.n_chunks(), 0);
}

#[test]
fn every_chunk_falls_into_one_segment() {
    let spans: Vec<TensorSpan> =
        [40, 7, 96, 64, 31].iter().map(|&b| TensorSpan { bytes: b, base: b as u64 }).collect();
    let table = gather(&spans);
    for off in 0..table.n_chunks() {
        let hits = (0..table.bases.len())
            .filter(|&t| table.prefix[t] <= off && off < table.prefix[t + 1])
            .count();
        assert_eq!(hits, 1);
    }
}

#[test]
fn copies_fill_the_concatenated_buffer() {
    let tensors: Vec<Vec<u8>> = vec![vec![1; 40], vec![2; 31], vec![3; 64]];
    let sizes: Vec<usize> = tensors.iter().map(|t| t.len()).collect();
    let plan = concatenate(&sizes);
    assert_eq!(plan.copy_to, vec![Some(0), None, Some(40)]);
    assert_eq!(plan.table.bases, vec![0, 40]);
    let mut buffer = vec![0u8; plan.total_bytes as usize];
    for (t, at) in tensors.iter().zip(&plan.copy_to) {
        if let Some(at) = at {
            buffer[*at as usize..*at as usize + t.len()].copy_from_slice(t);
        }
    }
    let mut expected = vec![1u8; 40];
    expected.extend(vec![3u8; 64]);
    assert_eq!(buffer, expected);
}
