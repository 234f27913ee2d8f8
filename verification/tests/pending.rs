use potato_core::approval::Reply;
use potato_core::pending::{PendingApprovals, PendingRequest};

fn request(id: &str, allow_session: bool, created_at: i64) -> PendingRequest {
    PendingRequest {
        id: id.to_string(),
        session: "s".to_string(),
        user: "default".to_string(),
        created_at,
        allow_session,
        closed: false,
        tool: "list_directory".to_string(),
    }
}

#[test]
fn strict_once_is_answered_once_and_scope_is_checked() {
    let mut pending = PendingApprovals::new();
    pending.add(request("a", false, 1000));
    let e = pending.decide("a", "s", "default", Some("session"), false, 1010).unwrap_err();
    assert_eq!((e.status, e.message.as_str()), (400, "Approval scope is not available for this action"));
    let e = pending.decide("a", "other", "default", Some("exact"), false, 1010).unwrap_err();
    assert_eq!((e.status, e.message.as_str()), (403, "Approval belongs to another session"));
    let (reply, tool) = pending.decide("a", "s", "default", Some("exact"), false, 1010).unwrap();
    assert_eq!((reply, tool.as_str()), (Reply::Once, "list_directory"));
    let e = pending.decide("a", "s", "default", Some("exact"), false, 1011).unwrap_err();
    assert_eq!((e.status, e.message.as_str()), (404, "Approval expired"));
}

#[test]
fn expired_requests_are_dropped_and_session_answers_need_an_offer() {
    let mut pending = PendingApprovals::new();
    pending.add(request("old", true, 1000));
    pending.add(request("new", true, 1000));
    let e = pending.decide("old", "s", "default", None, false, 1300).unwrap_err();
    assert_eq!(e.status, 409);
    assert_eq!(pending.decide("old", "s", "default", None, false, 1300).unwrap_err().status, 404);
    let (reply, _) = pending.decide("new", "s", "default", Some("session"), false, 1299).unwrap();
    assert_eq!(reply, Reply::Session);
    pending.add(request("deny", false, 5));
    assert_eq!(pending.decide("deny", "s", "default", None, true, 6).unwrap().0, Reply::Deny);
    let mut closed = request("c", false, 5);
    closed.closed = true;
    pending.add(closed);
    assert_eq!(pending.decide("c", "s", "default", None, false, 6).unwrap_err().message, "Approval expired or turn cancelled");
}
