use grinrelay::protocol::GrinboxResponse;

#[test]
fn it_works() {
    assert_eq!(2 + 2, 4);
}

#[test]
fn library_is_linked() {
    let ok = GrinboxResponse::Okay;
    assert_eq!(grinrelay::json::encode_response(&ok), "{\"type\":\"Ok\"}");
}
