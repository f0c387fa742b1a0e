//! A fetch against a server that answers every request from one listing: what the
//! fetch has gathered when it ends, and that any caller who takes the steps of the
//! fetch one by one ends with just that.

use crate::models::{ListingDataView, PayloadView, ThingView};
use crate::rate_limiter::RateLimitState;
use crate::reddit_client::{
    initial, is_complete, is_next_step, lemma_posts_of_concat, post_of, posts_of, request_cursor,
    request_size, smaller, with_answer, with_page, FetchStep, FetchView, PageRequestView,
};
use vstd::prelude::*;

verus! {

/// The cursors that a server hands out, one for each place of a listing of `len`
/// items, are told apart: none is empty, and no two places share one.
pub open spec fn distinct_cursors(cursors: Seq<Seq<char>>, len: int) -> bool {
    &&& cursors.len() >= len
    &&& forall|p: int| 0 < p < len ==> (#[trigger] cursors[p]).len() > 0
    &&& forall|p: int, q: int|
        0 < p < len && 0 < q < len && #[trigger] cursors[p] == #[trigger] cursors[q] ==> p == q
}

/// The place in the listing that a request's cursor stands for: the start for the
/// empty cursor, and else the place that the cursor was handed out for.
pub open spec fn place_of(cursors: Seq<Seq<char>>, len: int, after: Seq<char>) -> int {
    if after.len() == 0 {
        0
    } else {
        choose|p: int| 0 < p < len && cursors[p] == after
    }
}

/// The page with which a server that holds the listing `saved` answers a request
/// for `limit` items from the place `from`: the items from there on, up to `limit` of
/// them, and the cursor of the place behind them unless the listing ends there.
pub open spec fn served_page(
    saved: Seq<ThingView<PayloadView>>,
    cursors: Seq<Seq<char>>,
    from: int,
    limit: nat,
) -> ListingDataView<PayloadView> {
    if 0 <= from < saved.len() && limit > 0 {
        let to = smaller(from + limit, saved.len() as int);
        ListingDataView {
            after: if to < saved.len() {
                Some(cursors[to])
            } else {
                None
            },
            before: None,
            children: saved.subrange(from, to),
        }
    } else {
        ListingDataView { after: None, before: None, children: Seq::empty() }
    }
}

/// The state in which a fetch ends that starts in `fetch` and has each of its
/// requests answered with success by a server that holds the listing `saved`. The
/// quota plays no part in it.
pub open spec fn fetch_all(
    saved: Seq<ThingView<PayloadView>>,
    cursors: Seq<Seq<char>>,
    fetch: FetchView,
) -> FetchView
    decreases
        fetch.download_limit - fetch.fetched_count,
        (if fetch.cursor is Some {
            1nat
        } else {
            0nat
        }),
{
    if fetch.failure is Some || is_complete(fetch) {
        fetch
    } else {
        let from = place_of(cursors, saved.len() as int, request_cursor(fetch));
        let page = served_page(saved, cursors, from, request_size(fetch));
        fetch_all(saved, cursors, with_answer(fetch, 200, Some(page)))
    }
}

/// Where every item yields a post, the posts are as many as the items, and each is
/// the post of the item at its place.
pub proof fn lemma_posts_of_all(children: Seq<ThingView<PayloadView>>)
    requires
        forall|i: int| 0 <= i < children.len() ==> post_of(#[trigger] children[i]) is Some,
    ensures
        posts_of(children).len() == children.len(),
        forall|i: int|
            0 <= i < children.len() ==> Some(#[trigger] posts_of(children)[i]) == post_of(
                children[i],
            ),
    decreases children.len(),
{
    if children.len() > 0 {
        let front = children.drop_last();
        assert forall|i: int| 0 <= i < front.len() implies post_of(#[trigger] front[i]) is Some by {
            assert(front[i] == children[i]);
        }
        lemma_posts_of_all(front);
        assert(post_of(children.last()) is Some);
        assert forall|i: int| 0 <= i < children.len() implies Some(
            #[trigger] posts_of(children)[i],
        ) == post_of(children[i]) by {
            if i < front.len() {
                assert(front[i] == children[i]);
                assert(posts_of(children)[i] == posts_of(front)[i]);
            }
        }
    }
}

/// The cursor that a fetch holds when the server's next item is the one at `place`.
pub open spec fn cursor_at(
    saved: Seq<ThingView<PayloadView>>,
    cursors: Seq<Seq<char>>,
    place: int,
) -> Option<Seq<char>> {
    if place == 0 {
        Some(Seq::empty())
    } else if place < saved.len() {
        Some(cursors[place])
    } else {
        None
    }
}

/// A fetch that has gathered the posts of the listing's first `place` items, and holds
/// the cursor for that place, ends with the posts of as many of the listing's items as
/// its limit allows.
proof fn lemma_fetch_all_from(
    saved: Seq<ThingView<PayloadView>>,
    cursors: Seq<Seq<char>>,
    fetch: FetchView,
    place: int,
)
    requires
        distinct_cursors(cursors, saved.len() as int),
        fetch.page_size >= 1,
        fetch.failure is None,
        0 <= place <= saved.len(),
        place <= fetch.download_limit,
        fetch.fetched_count == place,
        fetch.posts == posts_of(saved.take(place)),
        fetch.cursor == cursor_at(saved, cursors, place) || place == fetch.download_limit || (
            fetch.cursor is None && place == saved.len()),
    ensures
        fetch_all(saved, cursors, fetch).failure is None,
        is_complete(fetch_all(saved, cursors, fetch)),
        fetch_all(saved, cursors, fetch).posts == posts_of(
            saved.take(smaller(fetch.download_limit as int, saved.len() as int)),
        ),
    decreases
        fetch.download_limit - fetch.fetched_count,
        (if fetch.cursor is Some {
            1nat
        } else {
            0nat
        }),
{
    let len = saved.len() as int;
    if is_complete(fetch) {
        if place < fetch.download_limit {
            assert(fetch.cursor is None);
            assert(place == len);
        }
    } else {
        let after = fetch.cursor->Some_0;
        let from = place_of(cursors, len, after);
        if place > 0 {
            assert(0 < place < len && cursors[place] == after);
        }
        assert(from == place);
        let limit = request_size(fetch);
        let page = served_page(saved, cursors, from, limit);
        let next = with_answer(fetch, 200, Some(page));
        assert(next == with_page(fetch, page));
        if place < len {
            let to = smaller(place + limit, len);
            assert(saved.take(place) + saved.subrange(place, to) =~= saved.take(to));
            lemma_posts_of_concat(saved.take(place), saved.subrange(place, to));
            assert(next.fetched_count == to);
            lemma_fetch_all_from(saved, cursors, next, to);
        } else {
            assert(page.children.len() == 0);
            assert(next.posts =~= fetch.posts);
            lemma_fetch_all_from(saved, cursors, next, place);
        }
    }
}

/// A fetch of `download_limit` items from a server that holds `saved` and answers
/// every request with success ends complete and without error, and its posts are
/// those of the first `download_limit` items of the listing, or of all of them where
/// the listing is shorter, in the order of the listing.
pub proof fn lemma_fetch_gathers_listing(
    saved: Seq<ThingView<PayloadView>>,
    cursors: Seq<Seq<char>>,
    page_size: nat,
    download_limit: nat,
)
    requires
        page_size >= 1,
        distinct_cursors(cursors, saved.len() as int),
    ensures
        fetch_all(saved, cursors, initial(page_size, download_limit)).failure is None,
        is_complete(fetch_all(saved, cursors, initial(page_size, download_limit))),
        fetch_all(saved, cursors, initial(page_size, download_limit)).posts == posts_of(
            saved.take(smaller(download_limit as int, saved.len() as int)),
        ),
{
    let start = initial(page_size, download_limit);
    assert(saved.take(0) =~= Seq::<ThingView<PayloadView>>::empty());
    assert(start.posts =~= posts_of(saved.take(0)));
    lemma_fetch_all_from(saved, cursors, start, 0);
}

/// Where every item of the listing yields a post, such a fetch returns exactly as
/// many posts as the smaller of `download_limit` and the length of the listing, and
/// the post at each place is that of the listing's item at that place.
pub proof fn lemma_fetch_returns_all(
    saved: Seq<ThingView<PayloadView>>,
    cursors: Seq<Seq<char>>,
    page_size: nat,
    download_limit: nat,
)
    requires
        page_size >= 1,
        distinct_cursors(cursors, saved.len() as int),
        forall|i: int| 0 <= i < saved.len() ==> post_of(#[trigger] saved[i]) is Some,
    ensures
        fetch_all(saved, cursors, initial(page_size, download_limit)).posts.len() == smaller(
            download_limit as int,
            saved.len() as int,
        ),
        forall|i: int|
            0 <= i < smaller(download_limit as int, saved.len() as int) ==> Some(
                #[trigger] fetch_all(saved, cursors, initial(page_size, download_limit)).posts[i],
            ) == post_of(saved[i]),
{
    let count = smaller(download_limit as int, saved.len() as int);
    lemma_fetch_gathers_listing(saved, cursors, page_size, download_limit);
    let got = saved.take(count);
    assert forall|i: int| 0 <= i < got.len() implies post_of(#[trigger] got[i]) is Some by {
        assert(got[i] == saved[i]);
    }
    lemma_posts_of_all(got);
    assert forall|i: int| 0 <= i < count implies Some(
        #[trigger] fetch_all(saved, cursors, initial(page_size, download_limit)).posts[i],
    ) == post_of(saved[i]) by {
        assert(got[i] == saved[i]);
    }
}

/// The answer that the server gives to `request`: the page for the place that the
/// request's cursor stands for, with as many items as the request asks for.
pub open spec fn answer_to(
    saved: Seq<ThingView<PayloadView>>,
    cursors: Seq<Seq<char>>,
    request: PageRequestView,
) -> ListingDataView<PayloadView> {
    served_page(saved, cursors, place_of(cursors, saved.len() as int, request.after), request.limit)
}

/// The state of a fetch after one round: the request `request` was sent from the state
/// `waiting`, the server has answered it with success, and `quota` is what the answer's
/// headers made of the quota.
pub open spec fn after_round(
    saved: Seq<ThingView<PayloadView>>,
    cursors: Seq<Seq<char>>,
    waiting: FetchView,
    request: PageRequestView,
    quota: RateLimitState,
) -> FetchView {
    with_answer(
        FetchView { limiter: quota, ..waiting },
        200,
        Some(answer_to(saved, cursors, request)),
    )
}

/// The fetch `fetch` is on the course of a fetch of `download_limit` items in pages
/// of `page_size`: carried to its end, it ends as that fetch ends when carried from its
/// start, but for the quota.
pub open spec fn on_course(
    saved: Seq<ThingView<PayloadView>>,
    cursors: Seq<Seq<char>>,
    fetch: FetchView,
    page_size: nat,
    download_limit: nat,
) -> bool {
    let end = fetch_all(saved, cursors, fetch);
    end == (FetchView {
        limiter: end.limiter,
        ..fetch_all(saved, cursors, initial(page_size, download_limit))
    })
}

/// The quota plays no part in where a fetch ends: with another quota it ends in the
/// same state, but for the quota.
pub proof fn lemma_fetch_all_ignores_quota(
    saved: Seq<ThingView<PayloadView>>,
    cursors: Seq<Seq<char>>,
    fetch: FetchView,
    quota: RateLimitState,
)
    ensures
        fetch_all(saved, cursors, FetchView { limiter: quota, ..fetch }) == (FetchView {
            limiter: quota,
            ..fetch_all(saved, cursors, fetch)
        }),
    decreases
        fetch.download_limit - fetch.fetched_count,
        (if fetch.cursor is Some {
            1nat
        } else {
            0nat
        }),
{
    let other = FetchView { limiter: quota, ..fetch };
    if !(fetch.failure is Some || is_complete(fetch)) {
        let from = place_of(cursors, saved.len() as int, request_cursor(fetch));
        let page = served_page(saved, cursors, from, request_size(fetch));
        let next = with_answer(fetch, 200, Some(page));
        assert(with_answer(other, 200, Some(page)) == FetchView { limiter: quota, ..next });
        lemma_fetch_all_ignores_quota(saved, cursors, next, quota);
    }
}

/// A fetch at its start is on its course.
pub proof fn lemma_start_is_on_course(
    saved: Seq<ThingView<PayloadView>>,
    cursors: Seq<Seq<char>>,
    page_size: nat,
    download_limit: nat,
)
    ensures
        on_course(saved, cursors, initial(page_size, download_limit), page_size, download_limit),
{
}

/// A round keeps a fetch on its course: where the step that the fetch takes in the state
/// `before` is to send a request, and the server answers that request with success,
/// the fetch is on its course afterwards if it was before, whatever the time of the
/// step and whatever the answer's headers make of the quota.
pub proof fn lemma_round_stays_on_course(
    saved: Seq<ThingView<PayloadView>>,
    cursors: Seq<Seq<char>>,
    step: FetchStep,
    before: FetchView,
    waiting: FetchView,
    username: Seq<char>,
    now: u64,
    quota: RateLimitState,
    page_size: nat,
    download_limit: nat,
)
    requires
        is_next_step(step, before, waiting, username, now),
        step is Send,
        on_course(saved, cursors, before, page_size, download_limit),
    ensures
        on_course(
            saved,
            cursors,
            after_round(saved, cursors, waiting, step->Send_0@, quota),
            page_size,
            download_limit,
        ),
{
    let request = step->Send_0@;
    let page = answer_to(saved, cursors, request);
    let next = with_answer(before, 200, Some(page));
    assert(fetch_all(saved, cursors, before) == fetch_all(saved, cursors, next));
    assert(after_round(saved, cursors, waiting, request, quota) == FetchView {
        limiter: quota,
        ..next
    });
    lemma_fetch_all_ignores_quota(saved, cursors, next, quota);
}

/// A fetch on its course ends with the posts of the listing: where the step that it
/// takes is not to send a request, the step is to finish, not to fail, and the posts that
/// the fetch holds are those of the first `download_limit` items of the listing, or of
/// all of them where the listing is shorter, in the order of the listing.
pub proof fn lemma_course_ends_with_listing(
    saved: Seq<ThingView<PayloadView>>,
    cursors: Seq<Seq<char>>,
    step: FetchStep,
    before: FetchView,
    waiting: FetchView,
    username: Seq<char>,
    now: u64,
    page_size: nat,
    download_limit: nat,
)
    requires
        page_size >= 1,
        distinct_cursors(cursors, saved.len() as int),
        is_next_step(step, before, waiting, username, now),
        step !is Send,
        on_course(saved, cursors, before, page_size, download_limit),
    ensures
        step is Finished,
        waiting == before,
        before.posts == posts_of(
            saved.take(smaller(download_limit as int, saved.len() as int)),
        ),
{
    lemma_fetch_gathers_listing(saved, cursors, page_size, download_limit);
    assert(fetch_all(saved, cursors, before) == before);
}

} // verus!
