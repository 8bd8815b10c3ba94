use starbase::stub_message;

#[test]
fn returns_stub_message() {
    assert_eq!(stub_message(), "Starbase stub crate is wired.");
}
