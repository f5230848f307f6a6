use graph_fight::utils::NotFoundError;

#[test]
fn not_found_error_keeps_its_message() {
    let e = NotFoundError::new("No valid position found");
    assert_eq!(e.message(), "No valid position found");
    assert_eq!(e.clone().message(), "No valid position found");
}
