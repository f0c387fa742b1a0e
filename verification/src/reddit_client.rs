//! The fetch of a user's saved posts, page by page: which request comes next, and
//! what each answer adds.

use crate::models::{
    is_success, shaped, status_is_success, Listing, ListingData, ListingDataView, Payload,
    PayloadView, SavedPost, SavedPostView, ShapeError, Thing, ThingView,
};
use crate::rate_limiter::{
    header_values, pause_of, updated, value_at, waited, RateLimitState, RateLimiter,
    HEADER_RATELIMIT_REMAINING, HEADER_RATELIMIT_RESET,
};
use crate::text::{decimal, decimal_string, str_equal};
use reqwest::header::HeaderMap;
use reqwest::Client;
use vstd::prelude::*;
use vstd::string::*;

verus! {

/// The HTTP client of `reqwest`. The library only holds it for its caller, who sends
/// the requests with it.
#[verifier::external_type_specification]
#[verifier::external_body]
pub struct ExClient(Client);

/// The most items that one page request asks for.
pub const PAGE_SIZE_CAP: usize = 10;

/// The kind of a listing item that is a link, that is a post.
pub const KIND_LINK: &'static str = "t3";

/// The kind of a listing item that is a comment.
pub const KIND_COMMENT: &'static str = "t1";

/// Why the fetch of the saved posts has ended without a result.
#[derive(Debug, Clone, Copy, PartialEq, Eq, Structural)]
pub enum FetchError {
    /// A request got no answer.
    Transport,
    /// A request was answered with this status, which is not a successful one.
    HttpStatus(u16),
    /// An answer's body was no listing.
    EnvelopeParse,
}

/// The smaller of two numbers.
pub open spec fn smaller(a: int, b: int) -> int {
    if a <= b {
        a
    } else {
        b
    }
}

/// The post that a listing item yields: that of its payload where the item is a
/// link and its payload has the shape of a post, and none otherwise.
pub open spec fn post_of(thing: ThingView<PayloadView>) -> Option<SavedPostView> {
    if thing.kind == KIND_LINK@ {
        match shaped(thing.data) {
            Ok(post) => Some(post),
            Err(_) => None,
        }
    } else {
        None
    }
}

/// The posts that the items of a page yield, in the order of the items.
pub open spec fn posts_of(children: Seq<ThingView<PayloadView>>) -> Seq<SavedPostView>
    decreases children.len(),
{
    if children.len() == 0 {
        Seq::empty()
    } else {
        let before = posts_of(children.drop_last());
        match post_of(children.last()) {
            Some(post) => before.push(post),
            None => before,
        }
    }
}

/// A link of a page that was left out, and why: its place in the page, counted from zero.
#[derive(Debug, Clone, Copy, PartialEq, Eq, Structural)]
pub struct Rejection {
    pub position: usize,
    pub error: ShapeError,
}

/// Why a listing item that is a link yields no post, where it yields none.
pub open spec fn rejection_of(thing: ThingView<PayloadView>) -> Option<ShapeError> {
    if thing.kind == KIND_LINK@ {
        match shaped(thing.data) {
            Ok(_) => None,
            Err(error) => Some(error),
        }
    } else {
        None
    }
}

/// The links of a page that yield no post, in the order of the page.
pub open spec fn rejections_of(children: Seq<ThingView<PayloadView>>) -> Seq<Rejection>
    decreases children.len(),
{
    if children.len() == 0 {
        Seq::empty()
    } else {
        let before = rejections_of(children.drop_last());
        match rejection_of(children.last()) {
            Some(error) => before.push(
                Rejection { position: (children.len() - 1) as usize, error },
            ),
            None => before,
        }
    }
}

/// An item that is no link yields no post, whatever it carries; so a comment never does.
pub proof fn lemma_only_links_yield_posts(thing: ThingView<PayloadView>)
    ensures
        thing.kind != KIND_LINK@ ==> post_of(thing) is None,
        thing.kind == KIND_COMMENT@ ==> post_of(thing) is None,
{
    reveal_strlit("t3");
    reveal_strlit("t1");
    if thing.kind == KIND_COMMENT@ {
        assert(KIND_COMMENT@[1] != KIND_LINK@[1]);
    }
}

/// A link whose payload has not the shape of a post yields none.
pub proof fn lemma_unshaped_link_yields_no_post(thing: ThingView<PayloadView>)
    requires
        shaped(thing.data) is Err,
    ensures
        post_of(thing) is None,
{
}

/// The posts of a page are those of its items before any one place, then the post of
/// the item at that place if it yields one, then those of the items behind it: an item
/// that yields none takes nothing from the rest.
pub proof fn lemma_posts_of_split(children: Seq<ThingView<PayloadView>>, at: int)
    requires
        0 <= at < children.len(),
    ensures
        posts_of(children) == posts_of(children.take(at)) + (match post_of(children[at]) {
            Some(post) => seq![post],
            None => Seq::empty(),
        }) + posts_of(children.skip(at + 1)),
{
    let one = children.subrange(at, at + 1);
    assert(one.drop_last() =~= Seq::<ThingView<PayloadView>>::empty());
    assert(one.last() == children[at]);
    assert(posts_of(one.drop_last()) =~= Seq::<SavedPostView>::empty());
    assert(posts_of(one) =~= (match post_of(children[at]) {
        Some(post) => seq![post],
        None => Seq::empty(),
    }));
    lemma_posts_of_concat(children.take(at), one);
    lemma_posts_of_concat(children.take(at) + one, children.skip(at + 1));
    assert(children.take(at) + one + children.skip(at + 1) =~= children);
}

/// The posts of two runs of items, one after the other, are the posts of the first
/// run followed by those of the second.
pub proof fn lemma_posts_of_concat(
    first: Seq<ThingView<PayloadView>>,
    second: Seq<ThingView<PayloadView>>,
)
    ensures
        posts_of(first + second) == posts_of(first) + posts_of(second),
    decreases second.len(),
{
    if second.len() == 0 {
        assert(first + second =~= first);
        assert(posts_of(first) + posts_of(second) =~= posts_of(first));
    } else {
        lemma_posts_of_concat(first, second.drop_last());
        assert((first + second).drop_last() =~= first + second.drop_last());
        assert((first + second).last() == second.last());
        assert(posts_of(first + second) =~= posts_of(first) + posts_of(second));
    }
}

/// The state of a fetch of saved posts.
pub struct FetchView {
    /// The quota as the server last reported it.
    pub limiter: RateLimitState,
    /// The most items to ask for in one request.
    pub page_size: nat,
    /// The number of items to fetch in all.
    pub download_limit: nat,
    /// The number of items received so far, counted up to the limit.
    pub fetched_count: nat,
    /// Where the next page resumes; none once the server has no more pages.
    pub cursor: Option<Seq<char>>,
    /// The posts gathered so far, in the order of the listing.
    pub posts: Seq<SavedPostView>,
    /// The error that ended the fetch, if one did.
    pub failure: Option<FetchError>,
}

/// The state in which a fetch of `download_limit` items starts, with pages no
/// larger than the cap.
pub open spec fn initial(page_size: nat, download_limit: nat) -> FetchView {
    FetchView {
        limiter: RateLimitState { remaining: 1, reset_time: 0 },
        page_size: smaller(page_size as int, PAGE_SIZE_CAP as int) as nat,
        download_limit,
        fetched_count: 0,
        cursor: Some(Seq::empty()),
        posts: Seq::empty(),
        failure: None,
    }
}

/// Nothing is left to ask for: the limit is reached, or the server has no more pages.
pub open spec fn is_complete(fetch: FetchView) -> bool {
    fetch.fetched_count >= fetch.download_limit || fetch.cursor is None
}

/// The number of items that the next request asks for.
pub open spec fn request_size(fetch: FetchView) -> nat {
    smaller(fetch.page_size as int, fetch.download_limit - fetch.fetched_count) as nat
}

/// The cursor that the next request names: the one that the last page handed out,
/// and the empty one before the first page.
pub open spec fn request_cursor(fetch: FetchView) -> Seq<char> {
    fetch.cursor->Some_0
}

/// The address of the listing of `username`'s saved items, for `limit` items after `after`.
pub open spec fn listing_url(username: Seq<char>, limit: nat, after: Seq<char>) -> Seq<char> {
    "https://oauth.reddit.com/user/"@ + username + "/saved?limit="@ + decimal(limit) + "&after="@
        + after
}

/// The state after a page of a listing has been taken in: its items count towards
/// the limit, the posts among them are added in their order, and the cursor is the page's.
pub open spec fn with_page(fetch: FetchView, page: ListingDataView<PayloadView>) -> FetchView {
    FetchView {
        fetched_count: smaller(
            fetch.download_limit as int,
            (fetch.fetched_count + page.children.len()) as int,
        ) as nat,
        posts: fetch.posts + posts_of(page.children),
        cursor: page.after,
        ..fetch
    }
}

/// The state after an answer has been judged: a fetch that has failed stays as it is,
/// an unsuccessful status or a body that is no listing ends it, and a listing is taken in.
pub open spec fn with_answer(
    fetch: FetchView,
    status: u16,
    listing: Option<ListingDataView<PayloadView>>,
) -> FetchView {
    if fetch.failure is Some {
        fetch
    } else if !is_success(status) {
        FetchView { failure: Some(FetchError::HttpStatus(status)), ..fetch }
    } else {
        match listing {
            Some(page) => with_page(fetch, page),
            None => FetchView { failure: Some(FetchError::EnvelopeParse), ..fetch },
        }
    }
}

/// The links that are left out when an answer is judged: those of the listing that
/// yield no post, where the listing is taken in, and none otherwise.
pub open spec fn rejected_by_answer(
    fetch: FetchView,
    status: u16,
    listing: Option<ListingDataView<PayloadView>>,
) -> Seq<Rejection> {
    if fetch.failure is None && is_success(status) && listing is Some {
        rejections_of(listing->Some_0.children)
    } else {
        Seq::empty()
    }
}

/// The state after a request got no answer.
pub open spec fn with_transport_failure(fetch: FetchView) -> FetchView {
    if fetch.failure is Some {
        fetch
    } else {
        FetchView { failure: Some(FetchError::Transport), ..fetch }
    }
}

/// One request for a page of the listing.
#[derive(Debug)]
pub struct PageRequest {
    /// The nanoseconds to let pass before the request is sent.
    pub pause: u128,
    /// The address to get.
    pub url: String,
    /// The number of items asked for.
    pub limit: usize,
    /// The cursor after which the page starts; empty for the first page.
    pub after: String,
}

/// A page request as a mathematical value.
pub struct PageRequestView {
    pub pause: nat,
    pub url: Seq<char>,
    pub limit: nat,
    pub after: Seq<char>,
}

impl View for PageRequest {
    type V = PageRequestView;

    open spec fn view(&self) -> PageRequestView {
        PageRequestView {
            pause: self.pause as nat,
            url: self.url@,
            limit: self.limit as nat,
            after: self.after@,
        }
    }
}

/// The request that a fetch in state `fetch` sends next at `now` for `username`.
pub open spec fn request_of(fetch: FetchView, username: Seq<char>, now: u64) -> PageRequestView {
    PageRequestView {
        pause: pause_of(fetch.limiter, now),
        url: listing_url(username, request_size(fetch), request_cursor(fetch)),
        limit: request_size(fetch),
        after: request_cursor(fetch),
    }
}

/// What a fetch does next.
#[derive(Debug)]
pub enum FetchStep {
    /// Send this request and hand the answer to the fetch.
    Send(PageRequest),
    /// The fetch is complete; its posts are ready.
    Finished,
    /// The fetch has failed.
    Failed(FetchError),
}

/// `step` is what a fetch for `username` does at `now` in the state `before`, and
/// `after` is the state that this leaves. A fetch that has failed reports its error,
/// and one with nothing left to ask for is finished; neither changes. Otherwise the
/// next request goes out, and is counted against the quota.
pub open spec fn is_next_step(
    step: FetchStep,
    before: FetchView,
    after: FetchView,
    username: Seq<char>,
    now: u64,
) -> bool {
    match step {
        FetchStep::Failed(error) => before.failure == Some(error) && after == before,
        FetchStep::Finished => before.failure is None && is_complete(before) && after == before,
        FetchStep::Send(request) => {
            &&& before.failure is None
            &&& !is_complete(before)
            &&& request@ == request_of(before, username, now)
            &&& after == FetchView { limiter: waited(before.limiter, now), ..before }
        },
    }
}

/// A fetch of saved posts, page by page: it says which request comes next, takes
/// in each answer, and gathers the posts.
#[derive(Debug)]
pub struct SavedFetch {
    limiter: RateLimiter,
    page_size: usize,
    download_limit: usize,
    fetched_count: usize,
    cursor: Option<String>,
    posts: Vec<SavedPost>,
    failure: Option<FetchError>,
}

impl View for SavedFetch {
    type V = FetchView;

    closed spec fn view(&self) -> FetchView {
        FetchView {
            limiter: self.limiter.state,
            page_size: self.page_size as nat,
            download_limit: self.download_limit as nat,
            fetched_count: self.fetched_count as nat,
            cursor: self.cursor.deep_view(),
            posts: self.posts.deep_view(),
            failure: self.failure,
        }
    }
}

impl SavedFetch {
    /// Pages are no larger than the cap, and the count of items does not pass the limit.
    #[verifier::type_invariant]
    spec fn within_bounds(&self) -> bool {
        self.page_size <= PAGE_SIZE_CAP && self.fetched_count <= self.download_limit
    }

    /// Starts a fetch of `download_limit` items in pages of `page_size` items, or of
    /// as many as the cap allows where `page_size` is larger.
    pub fn new(page_size: usize, download_limit: usize) -> (fetch: Self)
        ensures
            fetch@ == initial(page_size as nat, download_limit as nat),
    {
        let fetch = SavedFetch {
            limiter: RateLimiter::new(),
            page_size: if page_size <= PAGE_SIZE_CAP {
                page_size
            } else {
                PAGE_SIZE_CAP
            },
            download_limit,
            fetched_count: 0,
            cursor: Some(String::new()),
            posts: Vec::new(),
            failure: None,
        };
        assert(fetch.posts.deep_view() =~= Seq::<SavedPostView>::empty());
        assert(fetch.cursor.deep_view() == Some(Seq::<char>::empty()));
        fetch
    }

    /// Says what the fetch of `username`'s saved posts does next at `now`. No request
    /// asks for more items than the cap, nor for more than are still wanted.
    pub fn next_step(&mut self, username: &str, now: u64) -> (step: FetchStep)
        ensures
            is_next_step(step, old(self)@, final(self)@, username@, now),
            step matches FetchStep::Send(request) ==> request.limit <= smaller(
                PAGE_SIZE_CAP as int,
                old(self)@.download_limit - old(self)@.fetched_count,
            ),
    {
        proof {
            use_type_invariant(&*self);
        }
        if let Some(error) = self.failure {
            return FetchStep::Failed(error);
        }
        if self.fetched_count >= self.download_limit {
            return FetchStep::Finished;
        }
        let after = match &self.cursor {
            Some(cursor) => cursor.clone(),
            None => {
                return FetchStep::Finished;
            },
        };
        let wanted: usize = self.download_limit - self.fetched_count;
        let limit: usize = if self.page_size <= wanted {
            self.page_size
        } else {
            wanted
        };
        let mut limiter = RateLimiter { state: self.limiter.state };
        let pause = limiter.wait(now);
        self.limiter = limiter;
        let mut url = String::from_str("https://oauth.reddit.com/user/");
        url.append(username);
        url.append("/saved?limit=");
        url.append(decimal_string(limit).as_str());
        url.append("&after=");
        url.append(after.as_str());
        FetchStep::Send(PageRequest { pause, url, limit, after })
    }

    /// Takes in one page of the listing, and reports the links that it leaves out.
    pub fn accept_page(&mut self, page: ListingData<Payload>) -> (rejected: Vec<Rejection>)
        ensures
            final(self)@ == with_page(old(self)@, page.deep_view()),
            rejected@ == rejections_of(page.deep_view().children),
    {
        proof {
            use_type_invariant(&*self);
        }
        let ListingData { after, before: _, children } = page;
        let ghost items = children.deep_view();
        let count: usize = children.len();
        let room: usize = self.download_limit - self.fetched_count;
        self.fetched_count = if count >= room {
            self.download_limit
        } else {
            self.fetched_count + count
        };
        let mut posts: Vec<SavedPost> = Vec::new();
        core::mem::swap(&mut self.posts, &mut posts);
        let ghost gathered = posts.deep_view();
        assert(gathered + posts_of(items.take(0)) =~= gathered);
        let mut rejected: Vec<Rejection> = Vec::new();
        let mut position: usize = 0;
        for thing in it: children.into_iter()
            invariant
                it.seq().len() == items.len(),
                forall|j: int| 0 <= j < items.len() ==> (#[trigger] it.seq()[j]).deep_view() == items[j],
                position == it.index(),
                items.len() == count,
                posts.deep_view() == gathered + posts_of(items.take(it.index() as int)),
                rejected@ == rejections_of(items.take(it.index() as int)),
        {
            let ghost k = it.index() as int;
            assert(k < items.len());
            assert(items.take(k + 1).drop_last() =~= items.take(k));
            assert(items.take(k + 1).last() == thing.deep_view());
            let ghost so_far = posts.deep_view();
            let Thing { kind, data } = thing;
            if str_equal(kind.as_str(), KIND_LINK) {
                match SavedPost::from_payload(data) {
                    Ok(post) => {
                        posts.push(post);
                        assert(posts.deep_view() =~= so_far.push(post@));
                    },
                    Err(error) => {
                        rejected.push(Rejection { position, error });
                    },
                }
            }
            assert(posts.deep_view() =~= gathered + posts_of(items.take(k + 1)));
            position += 1;
        }
        assert(items.take(items.len() as int) =~= items);
        self.posts = posts;
        self.cursor = after;
        rejected
    }

    /// Takes in the answer to a request, which arrived at `now` with `status` and
    /// `headers`; `listing` is what its body holds, or none where the body is no
    /// listing. The quota follows the headers whatever the answer is.
    pub fn receive(
        &mut self,
        status: u16,
        headers: &HeaderMap,
        listing: Option<Listing<Payload>>,
        now: u64,
    ) -> (rejected: Vec<Rejection>)
        ensures
            rejected@ == rejected_by_answer(old(self)@, status, listing.deep_view()),
            final(self)@ == with_answer(
                FetchView {
                    limiter: updated(
                        old(self)@.limiter,
                        value_at(header_values(*headers), HEADER_RATELIMIT_REMAINING@),
                        value_at(header_values(*headers), HEADER_RATELIMIT_RESET@),
                        now,
                    ),
                    ..old(self)@
                },
                status,
                listing.deep_view(),
            ),
    {
        proof {
            use_type_invariant(&*self);
        }
        let mut limiter = RateLimiter { state: self.limiter.state };
        limiter.update(headers, now);
        self.limiter = limiter;
        self.judge(status, listing)
    }

    /// Judges an answer by its status and its body, and reports the links that it
    /// leaves out.
    pub fn judge(&mut self, status: u16, listing: Option<Listing<Payload>>) -> (rejected: Vec<
        Rejection,
    >)
        ensures
            final(self)@ == with_answer(old(self)@, status, listing.deep_view()),
            rejected@ == rejected_by_answer(old(self)@, status, listing.deep_view()),
    {
        proof {
            use_type_invariant(&*self);
        }
        if self.failure.is_some() {
            return Vec::new();
        }
        if !status_is_success(status) {
            self.failure = Some(FetchError::HttpStatus(status));
            return Vec::new();
        }
        match listing {
            Some(envelope) => self.accept_page(envelope.data),
            None => {
                self.failure = Some(FetchError::EnvelopeParse);
                Vec::new()
            },
        }
    }

    /// Takes note that a request got no answer.
    pub fn transport_failed(&mut self)
        ensures
            final(self)@ == with_transport_failure(old(self)@),
    {
        proof {
            use_type_invariant(&*self);
        }
        if self.failure.is_none() {
            self.failure = Some(FetchError::Transport);
        }
    }

    /// The quota as the server last reported it.
    pub fn limiter(&self) -> (limiter: RateLimiter)
        ensures
            limiter.state == self@.limiter,
    {
        RateLimiter { state: self.limiter.state }
    }

    /// The most items that one request asks for; never more than the cap.
    pub fn page_size(&self) -> (size: usize)
        ensures
            size == self@.page_size,
            size <= PAGE_SIZE_CAP,
    {
        proof {
            use_type_invariant(self);
        }
        self.page_size
    }

    /// The number of items to fetch in all.
    pub fn download_limit(&self) -> (limit: usize)
        ensures
            limit == self@.download_limit,
    {
        self.download_limit
    }

    /// The number of items received so far, counted up to the limit.
    pub fn fetched_count(&self) -> (count: usize)
        ensures
            count == self@.fetched_count,
            count <= self@.download_limit,
    {
        proof {
            use_type_invariant(self);
        }
        self.fetched_count
    }

    /// Where the next page resumes; none once the server has no more pages.
    pub fn cursor(&self) -> (cursor: &Option<String>)
        ensures
            cursor.deep_view() == self@.cursor,
    {
        &self.cursor
    }

    /// The posts gathered so far, in the order of the listing.
    pub fn posts(&self) -> (posts: &Vec<SavedPost>)
        ensures
            posts.deep_view() == self@.posts,
    {
        &self.posts
    }

    /// The error that ended the fetch, if one did.
    pub fn failure(&self) -> (failure: Option<FetchError>)
        ensures
            failure == self@.failure,
    {
        self.failure
    }

    /// Hands out the posts gathered, in the order of the listing.
    pub fn into_posts(self) -> (posts: Vec<SavedPost>)
        ensures
            posts.deep_view() == self@.posts,
    {
        self.posts
    }
}

/// A client for the listing of one user's saved items.
pub struct RedditClient {
    pub client: Client,
    pub token: String,
    pub username: String,
}

impl RedditClient {
    /// A client that sends with `client`, authorized by `token`, for the saved items
    /// of `username`.
    pub fn new(client: Client, token: String, username: String) -> (made: Self)
        ensures
            made.client == client,
            made.token == token,
            made.username == username,
    {
        Self { client, token, username }
    }

    /// Says what the fetch does next at `now`. A fetch that has failed reports its
    /// error, and one with nothing left to ask for is finished; neither changes.
    /// Otherwise the next request goes out: for as many items as are still wanted, up to
    /// the page size, and after the cursor of the last page. The request is counted
    /// against the quota, or comes with the pause that the quota demands.
    pub fn get_saved_posts(&self, fetch: &mut SavedFetch, now: u64) -> (step: FetchStep)
        ensures
            is_next_step(step, old(fetch)@, final(fetch)@, self.username@, now),
            step matches FetchStep::Send(request) ==> request.limit <= smaller(
                PAGE_SIZE_CAP as int,
                old(fetch)@.download_limit - old(fetch)@.fetched_count,
            ),
    {
        fetch.next_step(self.username.as_str(), now)
    }
}

} // verus!
