use flat_router::flat_router::{FlatRouter, PollOutcome, ViewState};
use flat_router::location::Url;
use flat_router::matching::{RouteMatch, ViewFactory};
use flat_router::model::{CTX_MATCHED, CTX_PARAMS, CTX_URL};
use flat_router::FatalError;

fn url(path: &str, search: &str) -> Url {
    Url::new(String::from(path), String::from(search))
}

fn m(id: u64, matched: &str, params: Vec<(&str, &str)>, content: &str, delay: u64) -> RouteMatch {
    RouteMatch {
        id,
        matched: String::from(matched),
        params: params
            .into_iter()
            .map(|(k, v)| (String::from(k), String::from(v)))
            .collect(),
        view: ViewFactory {
            content: String::from(content),
            delay,
        },
        has_nested_child: false,
    }
}

#[test]
fn build_fallback_when_no_match() {
    let router = FlatRouter::build(String::from("not found"), url("/missing", ""), None).unwrap();
    assert!(matches!(router.state.view, ViewState::Fallback { nav: 0 }));
    assert_eq!(router.state.route_id, None);
    assert_eq!(router.state.path, "/missing");
    assert_eq!(router.acks, 1);
    assert_eq!(router.pending.len(), 0);
}

#[test]
fn build_commits_immediate_resolution() {
    let router = FlatRouter::build(
        String::from("not found"),
        url("/users/1", ""),
        Some(m(7, "/users/:id", vec![("id", "1")], "user one", 0)),
    )
    .unwrap();
    match &router.state.view {
        ViewState::Routed {
            route_id, content, ..
        } => {
            assert_eq!(*route_id, 7);
            assert_eq!(content, "user one");
        }
        other => panic!("expected a committed view, got {other:?}"),
    }
    assert_eq!(router.state.route_id, Some(7));
    assert_eq!(router.acks, 1);
}

#[test]
fn build_queues_slow_resolution_behind_placeholder() {
    let mut router = FlatRouter::build(
        String::from("not found"),
        url("/users/1", ""),
        Some(m(7, "/users/:id", vec![("id", "1")], "user one", 2)),
    )
    .unwrap();
    assert!(matches!(router.state.view, ViewState::Placeholder { .. }));
    assert_eq!(router.pending.len(), 1);
    // the acknowledgment is deferred until the resolution completes
    assert_eq!(router.acks, 0);
    assert_eq!(router.poll_task(0), PollOutcome::NotReady);
    assert_eq!(router.poll_task(0), PollOutcome::Committed);
    assert_eq!(router.acks, 1);
    match &router.state.view {
        ViewState::Routed { content, .. } => assert_eq!(content, "user one"),
        other => panic!("expected a committed view, got {other:?}"),
    }
}

#[test]
fn nested_child_is_fatal_and_changes_nothing() {
    let mut with_child = m(7, "/users/:id", vec![], "user", 0);
    with_child.has_nested_child = true;
    let built = FlatRouter::build(String::from("fb"), url("/users/1", ""), Some(with_child));
    assert!(matches!(built, Err(FatalError::NestedRoutes)));

    let mut router = FlatRouter::build(String::from("fb"), url("/", ""), None).unwrap();
    let acks_before = router.acks;
    let navs_before = router.navs;
    let mut with_child = m(9, "/x", vec![], "x", 0);
    with_child.has_nested_child = true;
    let res = router.rebuild(url("/x", ""), Some(with_child));
    assert!(matches!(res, Err(FatalError::NestedRoutes)));
    assert_eq!(router.acks, acks_before);
    assert_eq!(router.navs, navs_before);
    assert_eq!(router.state.path, "/");
}

#[test]
fn same_path_navigation_touches_only_url_signal() {
    let mut router = FlatRouter::build(
        String::from("fb"),
        url("/items", "?page=1"),
        Some(m(3, "/items", vec![], "items", 0)),
    )
    .unwrap();
    let url_id = router.state.url.id;
    let params_id = router.state.params.id;
    let owner = router.state.owner;
    router
        .rebuild(url("/items", "?page=2"), Some(m(3, "/items", vec![], "items", 0)))
        .unwrap();
    assert_eq!(router.state.url.id, url_id);
    assert_eq!(router.state.url.value.search, "?page=2");
    assert_eq!(router.state.params.id, params_id);
    assert_eq!(router.state.owner, owner);
    assert_eq!(router.state.route_id, Some(3));
    assert!(matches!(router.state.view, ViewState::Routed { .. }));
    assert_eq!(router.acks, 2);
}

#[test]
fn same_pattern_navigation_updates_params_in_place() {
    let mut router = FlatRouter::build(
        String::from("fb"),
        url("/users/1", ""),
        Some(m(7, "/users/:id", vec![("id", "1")], "user one", 0)),
    )
    .unwrap();
    let owner = router.state.owner;
    let params_id = router.state.params.id;
    let matched_id = router.state.matched.id;
    router
        .rebuild(
            url("/users/2", ""),
            Some(m(7, "/users/:id", vec![("id", "2")], "user two", 0)),
        )
        .unwrap();
    // params now carry id = 2, the matched pattern is unchanged, and neither
    // owner nor view was replaced
    assert_eq!(
        router.state.params.value,
        vec![(String::from("id"), String::from("2"))]
    );
    assert_eq!(router.state.matched.value, "/users/:id");
    assert_eq!(router.state.owner, owner);
    assert_eq!(router.state.params.id, params_id);
    assert_eq!(router.state.matched.id, matched_id);
    match &router.state.view {
        ViewState::Routed { content, .. } => assert_eq!(content, "user one"),
        other => panic!("expected the unchanged view, got {other:?}"),
    }
}

#[test]
fn different_pattern_allocates_new_owner_and_drops_old() {
    let mut router = FlatRouter::build(
        String::from("fb"),
        url("/users/1", ""),
        Some(m(7, "/users/:id", vec![("id", "1")], "user one", 0)),
    )
    .unwrap();
    let old_owner = router.state.owner;
    let old_url_id = router.state.url.id;
    router
        .rebuild(url("/settings", ""), Some(m(8, "/settings", vec![], "settings", 0)))
        .unwrap();
    assert_ne!(router.state.owner, old_owner);
    assert_ne!(router.state.url.id, old_url_id);
    // synchronous resolution: the outgoing owner is dropped at once
    assert!(!router.arena.is_alive(old_owner));
    assert!(router.arena.is_alive(router.state.owner));
    match &router.state.view {
        ViewState::Routed { content, .. } => assert_eq!(content, "settings"),
        other => panic!("expected the new view, got {other:?}"),
    }
}

#[test]
fn slow_transition_retains_old_owner_until_commit() {
    let mut router = FlatRouter::build(
        String::from("fb"),
        url("/users/1", ""),
        Some(m(7, "/users/:id", vec![("id", "1")], "user one", 0)),
    )
    .unwrap();
    let old_owner = router.state.owner;
    router
        .rebuild(url("/slow", ""), Some(m(9, "/slow", vec![], "slow page", 1)))
        .unwrap();
    // in flight: the outgoing owner is retained alive
    assert!(router.arena.is_alive(old_owner));
    assert_eq!(router.poll_task(0), PollOutcome::Committed);
    // committed: the outgoing owner has now been dropped, exactly once
    assert!(!router.arena.is_alive(old_owner));
}

#[test]
fn superseded_resolution_is_discarded_even_if_it_finishes_later() {
    let mut router = FlatRouter::build(String::from("fb"), url("/", ""), None).unwrap();
    // navigation a: slow
    router
        .rebuild(url("/a", ""), Some(m(1, "/a", vec![], "view a", 2)))
        .unwrap();
    // navigation b, before a resolves: faster
    router
        .rebuild(url("/b", ""), Some(m(2, "/b", vec![], "view b", 1)))
        .unwrap();
    assert_eq!(router.pending.len(), 2);
    // b completes first and commits
    assert_eq!(router.poll_task(1), PollOutcome::Committed);
    match &router.state.view {
        ViewState::Routed { content, .. } => assert_eq!(content, "view b"),
        other => panic!("expected b's view, got {other:?}"),
    }
    // a finishes afterwards and is silently discarded
    assert_eq!(router.poll_task(0), PollOutcome::NotReady);
    assert_eq!(router.poll_task(0), PollOutcome::Discarded);
    match &router.state.view {
        ViewState::Routed { content, .. } => assert_eq!(content, "view b"),
        other => panic!("expected b's view to stay, got {other:?}"),
    }
    assert_eq!(router.pending.len(), 0);
}

#[test]
fn query_only_navigation_lets_inflight_resolution_commit() {
    let mut router = FlatRouter::build(String::from("fb"), url("/", ""), None).unwrap();
    router
        .rebuild(url("/a", ""), Some(m(1, "/a", vec![], "view a", 1)))
        .unwrap();
    // a query-only navigation does not supersede the in-flight resolution
    router
        .rebuild(url("/a", "?tab=2"), Some(m(1, "/a", vec![], "view a", 1)))
        .unwrap();
    assert_eq!(router.pending.len(), 1);
    assert_eq!(router.poll_task(0), PollOutcome::Committed);
}

#[test]
fn context_carries_the_current_signal_identities() {
    let mut router = FlatRouter::build(
        String::from("fb"),
        url("/users/1", ""),
        Some(m(7, "/users/:id", vec![("id", "1")], "user one", 0)),
    )
    .unwrap();
    let owner = router.state.owner;
    assert_eq!(router.arena.read_context(owner, CTX_URL), Some(router.state.url.id));
    assert_eq!(router.arena.read_context(owner, CTX_PARAMS), Some(router.state.params.id));
    assert_eq!(router.arena.read_context(owner, CTX_MATCHED), Some(router.state.matched.id));
    router
        .rebuild(url("/settings", ""), Some(m(8, "/settings", vec![], "settings", 0)))
        .unwrap();
    let owner2 = router.state.owner;
    assert_ne!(owner, owner2);
    assert_eq!(router.arena.read_context(owner2, CTX_URL), Some(router.state.url.id));
    assert_eq!(router.arena.read_context(owner2, CTX_PARAMS), Some(router.state.params.id));
    assert_eq!(router.arena.read_context(owner2, CTX_MATCHED), Some(router.state.matched.id));
}

#[test]
fn unmatched_to_unmatched_refreshes_the_fallback() {
    let mut router = FlatRouter::build(String::from("fb"), url("/nope", ""), None).unwrap();
    let old_owner = router.state.owner;
    router.rebuild(url("/also-nope", ""), None).unwrap();
    // both unmatched still means a full transition: fresh owner, fallback view
    assert_ne!(router.state.owner, old_owner);
    assert!(!router.arena.is_alive(old_owner));
    assert!(matches!(router.state.view, ViewState::Fallback { .. }));
}
