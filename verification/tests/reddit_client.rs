use reqwest::header::{HeaderMap, HeaderValue};
use rspd::models::{Field, Listing, ListingData, Payload, ShapeError, Thing};
use rspd::rate_limiter::RateLimitState;
use rspd::reddit_client::{
    FetchError, FetchStep, PageRequest, RedditClient, Rejection, SavedFetch, PAGE_SIZE_CAP,
};

fn client() -> RedditClient {
    RedditClient::new(reqwest::Client::new(), "token".to_string(), "alice".to_string())
}

fn link(id: &str, url: &str) -> Thing<Payload> {
    Thing {
        kind: "t3".to_string(),
        data: Payload {
            id: Field::Present(id.to_string()),
            subreddit: Field::Present("pics".to_string()),
            url: Field::Present(url.to_string()),
            is_self: Field::Present(false),
            is_gallery: Field::Absent,
            post_hint: Field::Absent,
            media_metadata: None,
            secure_media: None,
        },
    }
}

fn comment(id: &str) -> Thing<Payload> {
    let mut thing = link(id, "");
    thing.kind = "t1".to_string();
    thing.data.url = Field::Absent;
    thing.data.is_self = Field::Absent;
    thing
}

fn page(after: Option<&str>, children: Vec<Thing<Payload>>) -> Option<Listing<Payload>> {
    Some(Listing { data: ListingData { after: after.map(String::from), before: None, children } })
}

fn links(from: usize, count: usize) -> Vec<Thing<Payload>> {
    (from..from + count).map(|i| link(&format!("p{}", i), "https://i.redd.it/x.png")).collect()
}

fn send(step: FetchStep) -> PageRequest {
    match step {
        FetchStep::Send(request) => request,
        other => panic!("expected a request, got {:?}", other),
    }
}

fn post_ids(fetch: &SavedFetch) -> Vec<String> {
    fetch.posts().iter().map(|p| p.id.clone()).collect()
}

#[test]
fn new_client_holds_what_it_was_given() {
    let c = client();
    assert_eq!(c.token, "token");
    assert_eq!(c.username, "alice");
}

#[test]
fn limit_zero_finishes_without_a_request() {
    let c = client();
    let mut fetch = SavedFetch::new(10, 0);
    assert!(matches!(c.get_saved_posts(&mut fetch, 0), FetchStep::Finished));
    assert!(fetch.into_posts().is_empty());
}

#[test]
fn page_size_is_capped() {
    assert_eq!(PAGE_SIZE_CAP, 10);
    assert_eq!(SavedFetch::new(100, 50).page_size(), 10);
    assert_eq!(SavedFetch::new(10, 50).page_size(), 10);
    assert_eq!(SavedFetch::new(3, 50).page_size(), 3);
    let c = client();
    let mut fetch = SavedFetch::new(usize::MAX, 50);
    assert_eq!(send(c.get_saved_posts(&mut fetch, 0)).limit, 10);
}

#[test]
fn first_request_starts_at_the_top() {
    let c = client();
    let mut fetch = SavedFetch::new(5, 25);
    let request = send(c.get_saved_posts(&mut fetch, 0));
    assert_eq!(request.limit, 5);
    assert_eq!(request.after, "");
    assert_eq!(request.pause, 0);
    assert_eq!(request.url, "https://oauth.reddit.com/user/alice/saved?limit=5&after=");
}

#[test]
fn requests_ask_for_what_is_still_wanted() {
    let c = client();
    let mut fetch = SavedFetch::new(10, 25);
    let mut asked = Vec::new();
    let mut from = 0;
    loop {
        match c.get_saved_posts(&mut fetch, 0) {
            FetchStep::Send(request) => {
                asked.push(request.limit);
                let cursor = format!("c{}", from + request.limit);
                fetch.receive(200, &HeaderMap::new(), page(Some(&cursor), links(from, request.limit)), 0);
                from += request.limit;
            }
            FetchStep::Finished => break,
            FetchStep::Failed(error) => panic!("{:?}", error),
        }
    }
    assert_eq!(asked, vec![10, 10, 5]);
    assert_eq!(fetch.fetched_count(), 25);
    let posts = fetch.into_posts();
    assert_eq!(posts.len(), 25);
    for (i, post) in posts.iter().enumerate() {
        assert_eq!(post.id, format!("p{}", i));
    }
}

#[test]
fn next_request_follows_the_cursor() {
    let c = client();
    let mut fetch = SavedFetch::new(2, 10);
    send(c.get_saved_posts(&mut fetch, 0));
    fetch.receive(200, &HeaderMap::new(), page(Some("t3_xyz"), links(0, 2)), 0);
    let request = send(c.get_saved_posts(&mut fetch, 0));
    assert_eq!(request.after, "t3_xyz");
    assert_eq!(request.limit, 2);
    assert_eq!(request.url, "https://oauth.reddit.com/user/alice/saved?limit=2&after=t3_xyz");
}

#[test]
fn page_with_links_and_a_comment_yields_the_links() {
    let c = client();
    let mut fetch = SavedFetch::new(10, 10);
    send(c.get_saved_posts(&mut fetch, 0));
    let children = vec![
        link("one", "https://i.redd.it/x.png"),
        comment("two"),
        link("three", "https://example.com/page"),
    ];
    fetch.receive(200, &HeaderMap::new(), page(Some("abc123"), children), 0);
    assert_eq!(post_ids(&fetch), vec!["one", "three"]);
    assert_eq!(fetch.posts()[0].url, "https://i.redd.it/x.png");
    assert!(!fetch.posts()[0].is_self);
    assert_eq!(fetch.cursor(), &Some("abc123".to_string()));
    assert_eq!(fetch.fetched_count(), 3);
    assert_eq!(fetch.failure(), None);
    assert_eq!(send(c.get_saved_posts(&mut fetch, 0)).after, "abc123");
}

#[test]
fn comment_never_yields_a_post() {
    let mut thing = link("c", "https://i.redd.it/x.png");
    thing.kind = "t1".to_string();
    let mut other = link("o", "https://i.redd.it/x.png");
    other.kind = "t5".to_string();
    let mut fetch = SavedFetch::new(10, 10);
    fetch.accept_page(ListingData { after: None, before: None, children: vec![thing, other] });
    assert!(fetch.posts().is_empty());
    assert_eq!(fetch.fetched_count(), 2);
}

#[test]
fn link_with_a_missing_key_is_skipped_and_the_rest_is_kept() {
    let mut broken = link("broken", "https://i.redd.it/x.png");
    broken.data.subreddit = Field::Absent;
    let mut wrong = link("wrong", "https://i.redd.it/x.png");
    wrong.data.is_gallery = Field::Mismatch;
    let children = vec![link("a", "u"), broken, link("b", "u"), wrong, link("c", "u")];
    let mut fetch = SavedFetch::new(10, 10);
    fetch.accept_page(ListingData { after: Some("n".to_string()), before: None, children });
    assert_eq!(post_ids(&fetch), vec!["a", "b", "c"]);
    assert_eq!(fetch.fetched_count(), 5);
    assert_eq!(fetch.failure(), None);
}

#[test]
fn page_of_comments_moves_the_cursor_and_the_fetch_goes_on() {
    let c = client();
    let mut fetch = SavedFetch::new(2, 4);
    send(c.get_saved_posts(&mut fetch, 0));
    fetch.receive(200, &HeaderMap::new(), page(Some("c2"), vec![comment("x"), comment("y")]), 0);
    assert!(fetch.posts().is_empty());
    let request = send(c.get_saved_posts(&mut fetch, 0));
    assert_eq!(request.after, "c2");
    assert_eq!(request.limit, 2);
}

#[test]
fn fetch_ends_early_when_the_server_has_no_more() {
    let c = client();
    let mut fetch = SavedFetch::new(10, 50);
    send(c.get_saved_posts(&mut fetch, 0));
    fetch.receive(200, &HeaderMap::new(), page(None, links(0, 3)), 0);
    assert!(matches!(c.get_saved_posts(&mut fetch, 0), FetchStep::Finished));
    assert_eq!(fetch.fetched_count(), 3);
    assert_eq!(fetch.into_posts().len(), 3);
}

#[test]
fn items_beyond_the_limit_count_up_to_the_limit() {
    let c = client();
    let mut fetch = SavedFetch::new(2, 3);
    send(c.get_saved_posts(&mut fetch, 0));
    fetch.receive(200, &HeaderMap::new(), page(Some("n"), links(0, 5)), 0);
    assert_eq!(fetch.fetched_count(), 3);
    assert_eq!(fetch.download_limit(), 3);
    assert!(matches!(c.get_saved_posts(&mut fetch, 0), FetchStep::Finished));
    assert_eq!(fetch.into_posts().len(), 5);
}

#[test]
fn unsuccessful_status_ends_the_fetch() {
    let c = client();
    let mut fetch = SavedFetch::new(10, 50);
    send(c.get_saved_posts(&mut fetch, 0));
    fetch.receive(503, &HeaderMap::new(), None, 0);
    assert_eq!(fetch.failure(), Some(FetchError::HttpStatus(503)));
    assert!(matches!(
        c.get_saved_posts(&mut fetch, 0),
        FetchStep::Failed(FetchError::HttpStatus(503))
    ));
    fetch.receive(200, &HeaderMap::new(), page(None, links(0, 3)), 0);
    assert!(fetch.posts().is_empty());
    assert!(matches!(
        c.get_saved_posts(&mut fetch, 0),
        FetchStep::Failed(FetchError::HttpStatus(503))
    ));
}

#[test]
fn status_decides_before_the_body() {
    let mut fetch = SavedFetch::new(10, 50);
    fetch.judge(404, page(Some("n"), links(0, 3)));
    assert_eq!(fetch.failure(), Some(FetchError::HttpStatus(404)));
    assert!(fetch.posts().is_empty());
    let mut fetch = SavedFetch::new(10, 50);
    fetch.judge(299, page(Some("n"), links(0, 3)));
    assert_eq!(fetch.failure(), None);
    assert_eq!(fetch.posts().len(), 3);
    let mut fetch = SavedFetch::new(10, 50);
    fetch.judge(199, page(Some("n"), links(0, 3)));
    assert_eq!(fetch.failure(), Some(FetchError::HttpStatus(199)));
}

#[test]
fn body_that_is_no_listing_ends_the_fetch() {
    let c = client();
    let mut fetch = SavedFetch::new(10, 50);
    send(c.get_saved_posts(&mut fetch, 0));
    fetch.receive(200, &HeaderMap::new(), None, 0);
    assert_eq!(fetch.failure(), Some(FetchError::EnvelopeParse));
    assert!(matches!(
        c.get_saved_posts(&mut fetch, 0),
        FetchStep::Failed(FetchError::EnvelopeParse)
    ));
}

#[test]
fn request_without_an_answer_ends_the_fetch() {
    let c = client();
    let mut fetch = SavedFetch::new(10, 50);
    send(c.get_saved_posts(&mut fetch, 0));
    fetch.transport_failed();
    assert!(matches!(c.get_saved_posts(&mut fetch, 0), FetchStep::Failed(FetchError::Transport)));
    fetch.receive(500, &HeaderMap::new(), None, 0);
    assert_eq!(fetch.failure(), Some(FetchError::Transport));
}

#[test]
fn quota_follows_the_headers_of_every_answer() {
    let mut headers = HeaderMap::new();
    headers.insert("x-ratelimit-remaining", HeaderValue::from_static("0.0"));
    headers.insert("x-ratelimit-reset", HeaderValue::from_static("2"));
    let c = client();
    let mut fetch = SavedFetch::new(2, 10);
    assert_eq!(send(c.get_saved_posts(&mut fetch, 100)).pause, 0);
    fetch.receive(200, &headers, page(Some("n"), links(0, 2)), 1_000);
    assert_eq!(fetch.limiter().state, RateLimitState { remaining: 0, reset_time: 2_000_001_000 });
    let request = send(c.get_saved_posts(&mut fetch, 500_001_000));
    assert_eq!(request.pause, 1_500_000_000);
    assert_eq!(fetch.limiter().state.remaining, 0);

    let mut fetch = SavedFetch::new(2, 10);
    fetch.receive(500, &headers, None, 0);
    assert_eq!(fetch.limiter().state, RateLimitState { remaining: 0, reset_time: 2_000_000_000 });
    assert_eq!(fetch.failure(), Some(FetchError::HttpStatus(500)));
}

#[test]
fn request_is_counted_against_the_quota() {
    let mut headers = HeaderMap::new();
    headers.insert("x-ratelimit-remaining", HeaderValue::from_static("2"));
    headers.insert("x-ratelimit-reset", HeaderValue::from_static("60"));
    let c = client();
    let mut fetch = SavedFetch::new(1, 10);
    fetch.receive(200, &headers, page(Some("n"), Vec::new()), 0);
    assert_eq!(send(c.get_saved_posts(&mut fetch, 1)).pause, 0);
    assert_eq!(fetch.limiter().state.remaining, 1);
    assert_eq!(send(c.get_saved_posts(&mut fetch, 2)).pause, 0);
    assert_eq!(fetch.limiter().state.remaining, 0);
    assert_eq!(send(c.get_saved_posts(&mut fetch, 3)).pause, 60_000_000_000 - 3);
    assert_eq!(fetch.limiter().state.remaining, 0);
}

/// Answers `request` as a server would that holds `total` links with the ids p0, p1, ...
fn serve(total: usize, request: &PageRequest) -> Option<Listing<Payload>> {
    let from: usize = if request.after.is_empty() { 0 } else { request.after[1..].parse().unwrap() };
    let to = std::cmp::min(from + request.limit, total);
    let after = if to < total { Some(format!("c{}", to)) } else { None };
    page(after.as_deref(), links(from, to - from))
}

fn fetch_all(
    c: &RedditClient,
    page_size: usize,
    download_limit: usize,
    total: usize,
) -> (Vec<String>, Vec<usize>) {
    let mut fetch = SavedFetch::new(page_size, download_limit);
    let mut asked = Vec::new();
    loop {
        match c.get_saved_posts(&mut fetch, 0) {
            FetchStep::Send(request) => {
                assert!(request.limit <= PAGE_SIZE_CAP);
                assert!(request.limit <= download_limit - fetch.fetched_count());
                asked.push(request.limit);
                let rejected = fetch.receive(200, &HeaderMap::new(), serve(total, &request), 0);
                assert!(rejected.is_empty());
            }
            FetchStep::Finished => break,
            FetchStep::Failed(error) => panic!("{:?}", error),
        }
    }
    (fetch.into_posts().into_iter().map(|p| p.id).collect(), asked)
}

#[test]
fn fetch_returns_the_first_items_of_the_listing() {
    let c = client();
    for page_size in [1, 3, 10, 50] {
        for download_limit in [0, 1, 9, 10, 11, 25, 40] {
            for total in [0, 1, 10, 24, 25, 26, 100] {
                let (ids, _) = fetch_all(&c, page_size, download_limit, total);
                let expected: Vec<String> =
                    (0..std::cmp::min(download_limit, total)).map(|i| format!("p{}", i)).collect();
                assert_eq!(ids, expected, "{} {} {}", page_size, download_limit, total);
            }
        }
    }
}

#[test]
fn fetch_of_a_short_listing_asks_once() {
    let c = client();
    assert_eq!(fetch_all(&c, 10, 25, 4).1, vec![10]);
    assert_eq!(fetch_all(&c, 10, 25, 10).1, vec![10]);
    assert_eq!(fetch_all(&c, 10, 25, 11).1, vec![10, 10]);
    assert_eq!(fetch_all(&c, 4, 6, 100).1, vec![4, 2]);
    assert_eq!(fetch_all(&c, 10, 0, 100).1, Vec::<usize>::new());
}

#[test]
fn links_left_out_are_reported_with_their_place() {
    let mut broken = link("broken", "u");
    broken.data.url = Field::Absent;
    let mut wrong = link("wrong", "u");
    wrong.data.post_hint = Field::Mismatch;
    let mut odd_comment = comment("c");
    odd_comment.data.id = Field::Mismatch;
    let children = vec![broken, link("a", "u"), odd_comment, wrong];
    let mut fetch = SavedFetch::new(10, 10);
    let rejected = fetch.accept_page(ListingData { after: None, before: None, children });
    assert_eq!(
        rejected,
        vec![
            Rejection { position: 0, error: ShapeError::MissingField },
            Rejection { position: 3, error: ShapeError::IncompatibleField },
        ]
    );
    assert_eq!(post_ids(&fetch), vec!["a"]);
}

#[test]
fn an_answer_that_ends_the_fetch_reports_no_link() {
    let mut broken = link("broken", "u");
    broken.data.url = Field::Absent;
    let mut fetch = SavedFetch::new(10, 10);
    assert!(fetch.judge(500, page(None, vec![broken])).is_empty());
    assert!(fetch.judge(200, None).is_empty());
}
