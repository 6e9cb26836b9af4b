use tensor_grep_rs::backend_cpu::{CpuBackend, FileBytes, Target};

#[test]
fn test_rust_cpu_backend_search_output() {
    let content = b"INFO ok\nERROR failed\nDEBUG trace\nERROR timeout\n";
    let target = Target::File(FileBytes::Readable(content));

    let backend = CpuBackend::new();
    let results = backend.search("ERROR", &target, false, true, false).unwrap();

    assert_eq!(results.len(), 2);
    assert_eq!(results[0].0, 2);
    assert_eq!(results[0].1, "ERROR failed");
    assert_eq!(results[1].0, 4);
    assert_eq!(results[1].1, "ERROR timeout");
}
