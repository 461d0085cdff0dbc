use flat_router::listing::{
    generate_route_list, GeneratedRouteData, Method, PathSegment, SsrMode,
};

fn s(x: &str) -> String {
    String::from(x)
}

#[test]
fn one_listing_entry_per_route_with_base_prefix() {
    let routes = vec![
        GeneratedRouteData {
            segments: vec![PathSegment::Static(s("users")), PathSegment::Param(s("id"))],
            mode: SsrMode::Sync,
            methods: vec![Method::Get],
            regenerate: false,
        },
        GeneratedRouteData {
            segments: vec![PathSegment::Static(s("settings"))],
            mode: SsrMode::Async,
            methods: vec![Method::Get, Method::Post],
            regenerate: true,
        },
    ];
    let listing = generate_route_list(Some(s("app")), routes);
    assert_eq!(listing.len(), 2);
    assert_eq!(
        listing[0].path,
        vec![
            PathSegment::Static(s("app")),
            PathSegment::Static(s("users")),
            PathSegment::Param(s("id")),
        ]
    );
    assert_eq!(listing[0].mode, SsrMode::Sync);
    assert_eq!(listing[0].methods, vec![Method::Get]);
    assert!(!listing[0].regenerate);
    assert_eq!(
        listing[1].path,
        vec![PathSegment::Static(s("app")), PathSegment::Static(s("settings"))]
    );
    assert_eq!(listing[1].mode, SsrMode::Async);
    assert_eq!(listing[1].methods, vec![Method::Get, Method::Post]);
    assert!(listing[1].regenerate);
}

#[test]
fn no_base_means_no_prefix() {
    let routes = vec![GeneratedRouteData {
        segments: vec![PathSegment::Splat(s("rest"))],
        mode: SsrMode::OutOfOrderStreaming,
        methods: vec![Method::Get],
        regenerate: false,
    }];
    let listing = generate_route_list(None, routes);
    assert_eq!(listing.len(), 1);
    assert_eq!(listing[0].path, vec![PathSegment::Splat(s("rest"))]);
    assert_eq!(listing[0].mode, SsrMode::OutOfOrderStreaming);
}

#[test]
fn empty_route_table_lists_nothing() {
    let listing = generate_route_list(Some(s("app")), vec![]);
    assert_eq!(listing.len(), 0);
}
