use tlsboot::serve::FileExtServer;

#[test]
fn file_route_starts_at_default_rank() {
    let server = FileExtServer::new("apps");
    assert_eq!(server.root, "apps");
    assert_eq!(server.rank, 10);
}

#[test]
fn file_route_rank_can_be_chosen() {
    let server = FileExtServer::new("apps/expense.html").rank(3);
    assert_eq!(server.root, "apps/expense.html");
    assert_eq!(server.rank, 3);
}
