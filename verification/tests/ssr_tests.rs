use flat_router::flat_router::{FlatRouter, ViewState};
use flat_router::location::Url;
use flat_router::matching::{RouteMatch, ViewFactory};
use flat_router::listing::{GeneratedRouteData, Method, PathSegment, SsrMode};
use flat_router::ssr::{
    choose_ssr, render_or_enumerate, to_html_async_with_buf, to_html_with_buf, MatchedRoute,
    Position, SsrView, StreamBuilder,
};
use flat_router::FatalError;

fn m(id: u64, matched: &str, content: &str, delay: u64) -> RouteMatch {
    RouteMatch {
        id,
        matched: String::from(matched),
        params: vec![],
        view: ViewFactory {
            content: String::from(content),
            delay,
        },
        has_nested_child: false,
    }
}

#[test]
fn choose_ssr_picks_fallback_without_match() {
    match choose_ssr("not found", None) {
        Ok(SsrView::Fallback(html)) => assert_eq!(html, "not found"),
        _ => panic!("expected the fallback"),
    }
}

#[test]
fn choose_ssr_picks_matched_route() {
    match choose_ssr("not found", Some(m(1, "/users/:id", "<p>user</p>", 0))) {
        Ok(SsrView::Matched(MatchedRoute(id, html))) => {
            assert_eq!(id, "/users/:id");
            assert_eq!(html, "<p>user</p>");
        }
        _ => panic!("expected the matched route"),
    }
}

#[test]
fn choose_ssr_rejects_slow_route() {
    match choose_ssr("not found", Some(m(1, "/users/:id", "<p>user</p>", 1))) {
        Err(e) => assert_eq!(e, FatalError::AsyncRouteInSyncRender),
        Ok(_) => panic!("a route that suspends must be fatal in server rendering"),
    }
}

#[test]
fn matched_route_markup_is_bracketed_when_marking() {
    let mut buf = String::from("<head/>");
    let mut pos = Position::FirstChild;
    MatchedRoute(String::from("/users/:id"), String::from("<p>u</p>"))
        .to_html_with_buf(&mut buf, &mut pos, true, true);
    assert_eq!(
        buf,
        "<head/><!--route:/users/:id--><p>u</p><!--/route:/users/:id-->"
    );
    assert_eq!(pos, Position::FirstChild);
}

#[test]
fn matched_route_markup_is_bare_without_marking() {
    let mut buf = String::new();
    let mut pos = Position::NextChildAfterText;
    MatchedRoute(String::from("/users/:id"), String::from("<p>u</p>"))
        .to_html_with_buf(&mut buf, &mut pos, true, false);
    assert_eq!(buf, "<p>u</p>");
    // without markers the position is untouched
    assert_eq!(pos, Position::NextChildAfterText);
}

#[test]
fn marked_emission_decays_text_position() {
    let mut buf = String::new();
    let mut pos = Position::NextChildAfterText;
    MatchedRoute(String::from("/a"), String::from("x"))
        .to_html_with_buf(&mut buf, &mut pos, true, true);
    // a marked emission ends in a comment, not text
    assert_eq!(pos, Position::NextChild);
}

#[test]
fn render_to_buffer_emits_fallback_bare() {
    let mut buf = String::new();
    let mut pos = Position::FirstChild;
    to_html_with_buf("not found", None, &mut buf, &mut pos, true, true).unwrap();
    assert_eq!(buf, "not found");
}

#[test]
fn render_to_buffer_fails_on_slow_route_and_leaves_buffer() {
    let mut buf = String::from("before");
    let mut pos = Position::FirstChild;
    let res = to_html_with_buf(
        "fb",
        Some(m(1, "/slow", "late", 3)),
        &mut buf,
        &mut pos,
        true,
        true,
    );
    assert_eq!(res, Err(FatalError::AsyncRouteInSyncRender));
    assert_eq!(buf, "before");
}

#[test]
fn streaming_render_shares_the_same_steps() {
    let mut buf = StreamBuilder::new();
    let mut pos = Position::FirstChild;
    to_html_async_with_buf(
        "fb",
        Some(m(1, "/users/:id", "<p>u</p>", 0)),
        &mut buf,
        &mut pos,
        true,
        true,
    )
    .unwrap();
    assert_eq!(
        buf.sync_buf,
        "<!--route:/users/:id--><p>u</p><!--/route:/users/:id-->"
    );
}

#[test]
fn sync_hydration_rejects_slow_route_async_hydration_accepts_it() {
    let slow = || Some(m(4, "/lazy", "lazy view", 2));
    let res = FlatRouter::hydrate(
        String::from("fb"),
        Url::new(String::from("/lazy"), String::new()),
        slow(),
    );
    assert!(matches!(res, Err(FatalError::AsyncRouteInSyncHydrate)));

    let router = FlatRouter::hydrate_async(
        String::from("fb"),
        Url::new(String::from("/lazy"), String::new()),
        slow(),
    )
    .unwrap();
    // the same route succeeds asynchronously, fully resolved
    match &router.state.view {
        ViewState::Routed { content, .. } => assert_eq!(content, "lazy view"),
        other => panic!("expected the resolved view, got {other:?}"),
    }
    assert_eq!(router.pending.len(), 0);
}

#[test]
fn hydration_rejects_nested_child() {
    let mut bad = m(4, "/x", "x", 0);
    bad.has_nested_child = true;
    let res = FlatRouter::hydrate(
        String::from("fb"),
        Url::new(String::from("/x"), String::new()),
        Some(bad),
    );
    assert!(matches!(res, Err(FatalError::NestedRoutes)));
}

#[test]
fn hydration_builds_the_same_retained_state_as_the_client_build() {
    let router = FlatRouter::hydrate(
        String::from("fb"),
        Url::new(String::from("/users/1"), String::new()),
        Some(m(7, "/users/:id", "user one", 0)),
    )
    .unwrap();
    let built = FlatRouter::build(
        String::from("fb"),
        Url::new(String::from("/users/1"), String::new()),
        Some(m(7, "/users/:id", "user one", 0)),
    )
    .unwrap();
    assert_eq!(router.state.path, built.state.path);
    assert_eq!(router.state.route_id, built.state.route_id);
    assert_eq!(router.state.owner, built.state.owner);
    assert_eq!(router.state.url.id, built.state.url.id);
    assert_eq!(router.acks, built.acks);
}

#[test]
fn enumeration_mode_lists_routes_and_builds_no_view() {
    let routes = vec![GeneratedRouteData {
        segments: vec![PathSegment::Static(String::from("users"))],
        mode: SsrMode::Sync,
        methods: vec![Method::Get],
        regenerate: false,
    }];
    let mut buf = String::from("untouched");
    let mut pos = Position::FirstChild;
    let listing = render_or_enumerate(
        true,
        Some(String::from("app")),
        routes,
        "fb",
        Some(m(1, "/users", "users page", 0)),
        &mut buf,
        &mut pos,
        true,
        true,
    )
    .unwrap()
    .unwrap();
    assert_eq!(listing.len(), 1);
    assert_eq!(
        listing[0].path,
        vec![
            PathSegment::Static(String::from("app")),
            PathSegment::Static(String::from("users")),
        ]
    );
    // no view was rendered
    assert_eq!(buf, "untouched");
}

#[test]
fn rendering_mode_emits_the_matched_view() {
    let mut buf = String::new();
    let mut pos = Position::FirstChild;
    let listing = render_or_enumerate(
        false,
        None,
        vec![],
        "fb",
        Some(m(1, "/users", "users page", 0)),
        &mut buf,
        &mut pos,
        true,
        false,
    )
    .unwrap();
    assert!(listing.is_none());
    assert_eq!(buf, "users page");
}
