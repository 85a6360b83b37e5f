use rust_data_structures::version;

#[test]
fn version_exists() {
    assert!(!version().is_empty());
}
