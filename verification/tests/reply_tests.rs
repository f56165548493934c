use iiif_core::grammar::Format;
use iiif_core::reply::{
    error_reply, finish_reply, health_reply, image_step, method_gate, overloaded_reply, HttpMethod,
    ImageAction, ImageEvent, ImageState, Reply,
};

fn headers(reply: &Reply) -> Vec<(&str, &str)> {
    reply.headers.iter().map(|(n, v)| (n.as_str(), v.as_str())).collect()
}

fn respond(action: ImageAction) -> Reply {
    match action {
        ImageAction::Respond(reply) => reply,
        other => panic!("expected a response, got {other:?}"),
    }
}

#[test]
fn methods_are_gated_before_routing() {
    let preflight = method_gate(HttpMethod::Options).unwrap();
    assert_eq!(preflight.status, 204);
    assert_eq!(
        headers(&preflight),
        vec![
            ("allow", "GET, HEAD, OPTIONS"),
            ("access-control-allow-methods", "GET, HEAD, OPTIONS"),
            ("access-control-allow-headers", "Accept"),
            ("access-control-max-age", "86400"),
            ("access-control-allow-origin", "*"),
        ]
    );
    assert!(preflight.body.is_empty());
    let refused = method_gate(HttpMethod::Other).unwrap();
    assert_eq!(refused.status, 405);
    assert_eq!(refused.body, b"only GET and HEAD\n");
    assert!(method_gate(HttpMethod::Get).is_none());
    assert!(method_gate(HttpMethod::Head).is_none());
}

#[test]
fn routed_replies_carry_cors_and_head_drops_the_body() {
    let get = finish_reply(HttpMethod::Get, health_reply());
    assert_eq!(get.status, 200);
    assert_eq!(
        headers(&get),
        vec![("content-type", "text/plain"), ("access-control-allow-origin", "*")]
    );
    assert_eq!(get.body, b"ok\n");
    let head = finish_reply(HttpMethod::Head, error_reply(404, "no such resource"));
    assert_eq!(head.status, 404);
    assert_eq!(headers(&head).last(), Some(&("access-control-allow-origin", "*")));
    assert!(head.body.is_empty());
}

#[test]
fn a_full_queue_answers_503_before_any_decode() {
    let state = ImageState::Admitting { if_none_match: None };
    let (next, action) = image_step(state, ImageEvent::Admission(false));
    assert!(matches!(next, ImageState::Done));
    let reply = respond(action);
    assert_eq!(reply.status, 503);
    assert_eq!(headers(&reply)[1], ("retry-after", "2"));
    assert_eq!(reply.body, b"decode pool saturated\n");
    assert_eq!(reply, overloaded_reply());
}

#[test]
fn an_etag_hit_answers_304_before_pixel_work() {
    let tag = "\"00000000000000010000000000000002\"";
    let state = ImageState::Admitting { if_none_match: Some(format!("W/\"x\", {tag}")) };
    let (state, action) = image_step(state, ImageEvent::Admission(true));
    assert!(matches!(action, ImageAction::Plan));
    let planned = ImageEvent::Planned {
        format: Format::Jpg,
        link: "<l>".to_string(),
        etag: tag.to_string(),
    };
    let (next, action) = image_step(state, planned);
    assert!(matches!(next, ImageState::Done));
    let reply = respond(action);
    assert_eq!(reply.status, 304);
    assert_eq!(headers(&reply), vec![("etag", tag), ("cache-control", "public, max-age=3600")]);
    assert!(reply.body.is_empty());
}

#[test]
fn a_miss_runs_the_pixel_work_and_answers_200() {
    let state = ImageState::Planning { if_none_match: Some("\"other\"".to_string()) };
    let planned = ImageEvent::Planned {
        format: Format::Png,
        link: "<l>".to_string(),
        etag: "\"t\"".to_string(),
    };
    let (state, action) = image_step(state, planned);
    assert!(matches!(action, ImageAction::Execute));
    let (next, action) = image_step(state, ImageEvent::Executed(vec![1, 2, 3]));
    assert!(matches!(next, ImageState::Done));
    let reply = respond(action);
    assert_eq!(reply.status, 200);
    assert_eq!(
        headers(&reply),
        vec![
            ("content-type", "image/png"),
            ("link", "<l>"),
            ("etag", "\"t\""),
            ("cache-control", "public, max-age=3600"),
        ]
    );
    assert_eq!(reply.body, vec![1, 2, 3]);
    let (_, action) = image_step(
        ImageState::Done,
        ImageEvent::Failed { status: 400, message: "bad".to_string() },
    );
    assert_eq!(respond(action), error_reply(400, "bad"));
    let (_, action) = image_step(ImageState::Done, ImageEvent::Executed(vec![]));
    assert_eq!(respond(action).status, 500);
}
