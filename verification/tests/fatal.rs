use be_core::fatal::ResultExt;

#[test]
fn fatal_keeps_values_and_drops_errors() {
    let ok: Result<u32, String> = Ok(7);
    assert_eq!(ok.fatal(), Some(7));
    let err: Result<u32, String> = Err("broken".to_string());
    assert_eq!(err.fatal(), None);
}
