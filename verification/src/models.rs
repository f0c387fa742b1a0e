//! The data that the listing hands out and that a post is made of.

use crate::text::{lemma_lex_less_total, lemma_lex_less_transitive, lex_less, str_equal, str_less};
use vstd::prelude::*;

verus! {

/// The status is one of the successful ones, 200 to 299.
pub open spec fn is_success(status: u16) -> bool {
    200 <= status && status < 300
}

/// Whether a status is one of the successful ones.
pub fn status_is_success(status: u16) -> (success: bool)
    ensures
        success == is_success(status),
{
    200 <= status && status < 300
}

/// What the token endpoint answers.
#[derive(Debug)]
pub struct TokenResponse {
    pub access_token: String,
}

impl View for TokenResponse {
    type V = Seq<char>;

    open spec fn view(&self) -> Seq<char> {
        self.access_token@
    }
}

/// One item of a listing: its kind and what it carries.
#[derive(Debug)]
pub struct Thing<T> {
    /// t3 = link/post, t1 = comment
    pub kind: String,
    pub data: T,
}

/// A listing item with its kind as a sequence of characters and its payload by its view.
pub struct ThingView<D> {
    pub kind: Seq<char>,
    pub data: D,
}

impl<T: DeepView> DeepView for Thing<T> {
    type V = ThingView<T::V>;

    open spec fn deep_view(&self) -> ThingView<T::V> {
        ThingView { kind: self.kind@, data: self.data.deep_view() }
    }
}

/// The data returned, with pagination fields
#[derive(Debug)]
pub struct ListingData<T> {
    pub after: Option<String>,
    pub before: Option<String>,
    pub children: Vec<Thing<T>>,
}

/// A page of a listing as a mathematical value.
pub struct ListingDataView<D> {
    pub after: Option<Seq<char>>,
    pub before: Option<Seq<char>>,
    pub children: Seq<ThingView<D>>,
}

impl<T: DeepView> DeepView for ListingData<T> {
    type V = ListingDataView<T::V>;

    open spec fn deep_view(&self) -> ListingDataView<T::V> {
        ListingDataView {
            after: self.after.deep_view(),
            before: self.before.deep_view(),
            children: self.children.deep_view(),
        }
    }
}

/// Reddit's "envelope" that contains data responses
#[derive(Debug)]
pub struct Listing<T> {
    pub data: ListingData<T>,
}

impl<T: DeepView> DeepView for Listing<T> {
    type V = ListingDataView<T::V>;

    open spec fn deep_view(&self) -> ListingDataView<T::V> {
        self.data.deep_view()
    }
}

/// One image of a gallery: the id it is filed under and, where the item names one,
/// the address of its source image.
#[derive(Debug)]
pub struct GalleryItem {
    pub media_id: String,
    pub url: Option<String>,
}

/// A gallery item with its texts as sequences of characters.
pub struct GalleryItemView {
    pub media_id: Seq<char>,
    pub url: Option<Seq<char>>,
}

impl View for GalleryItem {
    type V = GalleryItemView;

    open spec fn view(&self) -> GalleryItemView {
        GalleryItemView { media_id: self.media_id@, url: self.url.deep_view() }
    }
}

impl DeepView for GalleryItem {
    type V = GalleryItemView;

    open spec fn deep_view(&self) -> GalleryItemView {
        self@
    }
}

/// The items stand in the dictionary order of their ids, and no id occurs twice.
pub open spec fn ordered_by_id(items: Seq<GalleryItemView>) -> bool {
    forall|i: int, j: int|
        0 <= i < j < items.len() ==> lex_less(
            #[trigger] items[i].media_id,
            #[trigger] items[j].media_id,
        )
}

/// How many items at the front of `items` have an id that comes before `id`.
pub open spec fn rank(items: Seq<GalleryItemView>, id: Seq<char>) -> nat
    decreases items.len(),
{
    if items.len() > 0 && lex_less(items[0].media_id, id) {
        1 + rank(items.skip(1), id)
    } else {
        0
    }
}

/// `items` with `item` filed under its id: in place of the item that had the id, or
/// else at the place that keeps the order.
pub open spec fn filed(items: Seq<GalleryItemView>, item: GalleryItemView) -> Seq<GalleryItemView> {
    let at = rank(items, item.media_id) as int;
    if at < items.len() && items[at].media_id == item.media_id {
        items.update(at, item)
    } else {
        items.insert(at, item)
    }
}

/// The rank of an id is the place `k` before which every id is smaller and at which
/// the id is not.
proof fn lemma_rank(items: Seq<GalleryItemView>, id: Seq<char>, k: int)
    requires
        0 <= k <= items.len(),
        forall|j: int| 0 <= j < k ==> lex_less(#[trigger] items[j].media_id, id),
        k == items.len() || !lex_less(items[k].media_id, id),
    ensures
        rank(items, id) == k,
    decreases items.len(),
{
    if k > 0 {
        assert(lex_less(items[0].media_id, id));
        assert forall|j: int| 0 <= j < k - 1 implies lex_less(
            #[trigger] items.skip(1)[j].media_id,
            id,
        ) by {
            assert(items.skip(1)[j] == items[j + 1]);
        }
        lemma_rank(items.skip(1), id, k - 1);
    }
}

/// Filing an item keeps the order.
pub proof fn lemma_filed_ordered(items: Seq<GalleryItemView>, item: GalleryItemView)
    requires
        ordered_by_id(items),
    ensures
        ordered_by_id(filed(items, item)),
{
    let id = item.media_id;
    let at = rank(items, id) as int;
    lemma_rank_bounds(items, id);
    let after = filed(items, item);
    if at < items.len() && items[at].media_id == id {
        assert forall|i: int, j: int| 0 <= i < j < after.len() implies lex_less(
            #[trigger] after[i].media_id,
            #[trigger] after[j].media_id,
        ) by {
            assert(after[i].media_id == items[i].media_id);
            assert(after[j].media_id == items[j].media_id);
        }
    } else {
        if at < items.len() {
            lemma_lex_less_total(items[at].media_id, id);
        }
        assert forall|i: int, j: int| 0 <= i < j < after.len() implies lex_less(
            #[trigger] after[i].media_id,
            #[trigger] after[j].media_id,
        ) by {
            if j < at {
                assert(after[i] == items[i] && after[j] == items[j]);
            } else if j == at {
                assert(after[i] == items[i]);
            } else if i == at {
                assert(after[j] == items[j - 1]);
                if j - 1 > at {
                    assert(lex_less(items[at].media_id, items[j - 1].media_id));
                    lemma_lex_less_transitive(id, items[at].media_id, items[j - 1].media_id);
                }
            } else if i < at {
                assert(after[i] == items[i] && after[j] == items[j - 1]);
            } else {
                assert(after[i] == items[i - 1] && after[j] == items[j - 1]);
            }
        }
    }
}

/// The rank of an id is a place in the sequence or its end; every item before it
/// has a smaller id, and the item at it, if there is one, has not.
pub proof fn lemma_rank_bounds(items: Seq<GalleryItemView>, id: Seq<char>)
    ensures
        rank(items, id) <= items.len(),
        forall|j: int| 0 <= j < rank(items, id) ==> lex_less(#[trigger] items[j].media_id, id),
        rank(items, id) < items.len() ==> !lex_less(items[rank(items, id) as int].media_id, id),
    decreases items.len(),
{
    if items.len() > 0 && lex_less(items[0].media_id, id) {
        lemma_rank_bounds(items.skip(1), id);
        let r = rank(items.skip(1), id);
        assert forall|j: int| 0 <= j < rank(items, id) implies lex_less(
            #[trigger] items[j].media_id,
            id,
        ) by {
            if j > 0 {
                assert(items.skip(1)[j - 1] == items[j]);
            }
        }
        if rank(items, id) < items.len() {
            assert(items.skip(1)[r as int] == items[r as int + 1]);
        }
    }
}

/// The images of a gallery post, keyed by media id. Whatever the order in which
/// they were put in, they are kept and handed out in the dictionary order of their ids.
#[derive(Debug)]
pub struct GalleryMetadata {
    entries: Vec<GalleryItem>,
}

impl View for GalleryMetadata {
    type V = Seq<GalleryItemView>;

    closed spec fn view(&self) -> Seq<GalleryItemView> {
        self.entries.deep_view()
    }
}

impl DeepView for GalleryMetadata {
    type V = Seq<GalleryItemView>;

    open spec fn deep_view(&self) -> Seq<GalleryItemView> {
        self@
    }
}

impl GalleryMetadata {
    /// The entries stand in the order of their ids.
    #[verifier::type_invariant]
    spec fn well_ordered(&self) -> bool {
        ordered_by_id(self.entries.deep_view())
    }

    /// A gallery without images.
    pub fn new() -> (gallery: Self)
        ensures
            gallery@ == Seq::<GalleryItemView>::empty(),
    {
        let gallery = GalleryMetadata { entries: Vec::new() };
        assert(gallery.entries.deep_view() =~= Seq::<GalleryItemView>::empty());
        gallery
    }

    /// Files an image under `media_id`, in place of one already filed under that id.
    pub fn insert(&mut self, media_id: String, url: Option<String>)
        ensures
            final(self)@ == filed(
                old(self)@,
                GalleryItemView { media_id: media_id@, url: url.deep_view() },
            ),
    {
        proof {
            use_type_invariant(&*self);
        }
        let mut entries: Vec<GalleryItem> = Vec::new();
        assert(entries.deep_view() =~= Seq::<GalleryItemView>::empty());
        core::mem::swap(&mut self.entries, &mut entries);
        let ghost before = entries.deep_view();
        let ghost item_view = GalleryItemView { media_id: media_id@, url: url.deep_view() };
        let mut at: usize = 0;
        while at < entries.len() && str_less(entries[at].media_id.as_str(), media_id.as_str())
            invariant
                at <= entries.len(),
                entries.deep_view() == before,
                forall|j: int| 0 <= j < at ==> lex_less(#[trigger] before[j].media_id, media_id@),
            decreases entries.len() - at,
        {
            at += 1;
        }
        proof {
            lemma_rank(before, media_id@, at as int);
            lemma_filed_ordered(before, item_view);
        }
        let replace = at < entries.len() && str_equal(
            entries[at].media_id.as_str(),
            media_id.as_str(),
        );
        let item = GalleryItem { media_id, url };
        if replace {
            entries.set(at, item);
            assert(entries.deep_view() =~= before.update(at as int, item_view));
        } else {
            entries.insert(at, item);
            assert(entries.deep_view() =~= before.insert(at as int, item_view));
        }
        self.entries = entries;
    }

    /// The images, in the dictionary order of their ids.
    pub fn items(&self) -> (items: &Vec<GalleryItem>)
        ensures
            items.deep_view() == self@,
            ordered_by_id(self@),
    {
        proof {
            use_type_invariant(self);
        }
        &self.entries
    }
}

/// The video that a post hosts.
#[derive(Debug)]
pub struct RedditVideo {
    pub fallback_url: Option<String>,
}

/// The media section of a post.
#[derive(Debug)]
pub struct SecureMedia {
    pub reddit_video: Option<RedditVideo>,
}

impl View for RedditVideo {
    type V = Option<Seq<char>>;

    open spec fn view(&self) -> Option<Seq<char>> {
        self.fallback_url.deep_view()
    }
}

impl DeepView for RedditVideo {
    type V = Option<Seq<char>>;

    open spec fn deep_view(&self) -> Option<Seq<char>> {
        self@
    }
}

impl View for SecureMedia {
    type V = Option<Option<Seq<char>>>;

    open spec fn view(&self) -> Option<Option<Seq<char>>> {
        self.reddit_video.deep_view()
    }
}

impl DeepView for SecureMedia {
    type V = Option<Option<Seq<char>>>;

    open spec fn deep_view(&self) -> Option<Option<Seq<char>>> {
        self@
    }
}

/// The fallback address that a media section names, where the section, its video and
/// the address are all there.
pub open spec fn fallback_url_of(secure_media: Option<Option<Option<Seq<char>>>>) -> Option<
    Seq<char>,
> {
    match secure_media {
        Some(Some(Some(url))) => Some(url),
        _ => None,
    }
}

/// A saved post, ready for its media to be fetched.
#[derive(Debug)]
pub struct SavedPost {
    pub id: String,
    pub subreddit: String,
    pub url: String,
    pub is_self: bool,
    pub is_gallery: Option<bool>,
    pub post_hint: Option<String>,
    pub media_metadata: Option<GalleryMetadata>,
    pub secure_media: Option<SecureMedia>,
}

/// A saved post as a mathematical value.
pub struct SavedPostView {
    pub id: Seq<char>,
    pub subreddit: Seq<char>,
    pub url: Seq<char>,
    pub is_self: bool,
    pub is_gallery: Option<bool>,
    pub post_hint: Option<Seq<char>>,
    pub media_metadata: Option<Seq<GalleryItemView>>,
    pub secure_media: Option<Option<Option<Seq<char>>>>,
}

impl View for SavedPost {
    type V = SavedPostView;

    open spec fn view(&self) -> SavedPostView {
        SavedPostView {
            id: self.id@,
            subreddit: self.subreddit@,
            url: self.url@,
            is_self: self.is_self,
            is_gallery: self.is_gallery,
            post_hint: self.post_hint.deep_view(),
            media_metadata: self.media_metadata.deep_view(),
            secure_media: self.secure_media.deep_view(),
        }
    }
}

impl DeepView for SavedPost {
    type V = SavedPostView;

    open spec fn deep_view(&self) -> SavedPostView {
        self@
    }
}

/// How one key of a listing item's payload looks to a reader that expects a value of
/// type `T` under it.
#[derive(Debug)]
pub enum Field<T> {
    /// The key is not there, or holds null.
    Absent,
    /// The key holds a value of another type.
    Mismatch,
    /// The key holds this value.
    Present(T),
}

impl<T: DeepView> DeepView for Field<T> {
    type V = Field<T::V>;

    open spec fn deep_view(&self) -> Field<T::V> {
        match self {
            Field::Absent => Field::Absent,
            Field::Mismatch => Field::Mismatch,
            Field::Present(value) => Field::Present(value.deep_view()),
        }
    }
}

/// The keys of a listing item's payload that a saved post is made of.
#[derive(Debug)]
pub struct Payload {
    pub id: Field<String>,
    pub subreddit: Field<String>,
    pub url: Field<String>,
    pub is_self: Field<bool>,
    pub is_gallery: Field<bool>,
    pub post_hint: Field<String>,
    pub media_metadata: Option<GalleryMetadata>,
    pub secure_media: Option<SecureMedia>,
}

/// A payload as a mathematical value.
pub struct PayloadView {
    pub id: Field<Seq<char>>,
    pub subreddit: Field<Seq<char>>,
    pub url: Field<Seq<char>>,
    pub is_self: Field<bool>,
    pub is_gallery: Field<bool>,
    pub post_hint: Field<Seq<char>>,
    pub media_metadata: Option<Seq<GalleryItemView>>,
    pub secure_media: Option<Option<Option<Seq<char>>>>,
}

impl View for Payload {
    type V = PayloadView;

    open spec fn view(&self) -> PayloadView {
        PayloadView {
            id: self.id.deep_view(),
            subreddit: self.subreddit.deep_view(),
            url: self.url.deep_view(),
            is_self: self.is_self.deep_view(),
            is_gallery: self.is_gallery.deep_view(),
            post_hint: self.post_hint.deep_view(),
            media_metadata: self.media_metadata.deep_view(),
            secure_media: self.secure_media.deep_view(),
        }
    }
}

impl DeepView for Payload {
    type V = PayloadView;

    open spec fn deep_view(&self) -> PayloadView {
        self@
    }
}

/// Why a payload makes no saved post.
#[derive(Debug, Clone, Copy, PartialEq, Eq, Structural)]
pub enum ShapeError {
    /// A key that a post must have is absent.
    MissingField,
    /// A key holds a value of a type that a post cannot take.
    IncompatibleField,
}

/// A key that may be left out, as the post holds it.
pub open spec fn optional<V>(field: Field<V>) -> Option<V> {
    match field {
        Field::Present(value) => Some(value),
        _ => None,
    }
}

/// One of the six typed keys holds a value of the wrong type.
pub open spec fn has_mismatch(payload: PayloadView) -> bool {
    payload.id is Mismatch || payload.subreddit is Mismatch || payload.url is Mismatch
        || payload.is_self is Mismatch || payload.is_gallery is Mismatch
        || payload.post_hint is Mismatch
}

/// All four required keys are there.
pub open spec fn has_required(payload: PayloadView) -> bool {
    payload.id is Present && payload.subreddit is Present && payload.url is Present
        && payload.is_self is Present
}

/// The saved post that a payload makes: none where a key has the wrong type, none
/// where a required key is absent, and else the post with the payload's values.
pub open spec fn shaped(payload: PayloadView) -> Result<SavedPostView, ShapeError> {
    if has_mismatch(payload) {
        Err(ShapeError::IncompatibleField)
    } else if !has_required(payload) {
        Err(ShapeError::MissingField)
    } else {
        Ok(
            SavedPostView {
                id: payload.id->Present_0,
                subreddit: payload.subreddit->Present_0,
                url: payload.url->Present_0,
                is_self: payload.is_self->Present_0,
                is_gallery: optional(payload.is_gallery),
                post_hint: optional(payload.post_hint),
                media_metadata: payload.media_metadata,
                secure_media: payload.secure_media,
            },
        )
    }
}

/// The result of `shaped`, with a post by its view.
pub open spec fn shape_matches(result: Result<SavedPost, ShapeError>, payload: PayloadView) -> bool {
    match result {
        Ok(post) => shaped(payload) == Ok::<SavedPostView, ShapeError>(post@),
        Err(e) => shaped(payload) == Err::<SavedPostView, ShapeError>(e),
    }
}

impl SavedPost {
    /// Makes a saved post of a payload, or says why the payload makes none.
    pub fn from_payload(payload: Payload) -> (result: Result<SavedPost, ShapeError>)
        ensures
            shape_matches(result, payload@),
    {
        let Payload {
            id,
            subreddit,
            url,
            is_self,
            is_gallery,
            post_hint,
            media_metadata,
            secure_media,
        } = payload;
        let is_gallery = match is_gallery {
            Field::Mismatch => {
                return Err(ShapeError::IncompatibleField);
            },
            Field::Absent => None,
            Field::Present(flag) => Some(flag),
        };
        let post_hint = match post_hint {
            Field::Mismatch => {
                return Err(ShapeError::IncompatibleField);
            },
            Field::Absent => None,
            Field::Present(hint) => Some(hint),
        };
        match (id, subreddit, url, is_self) {
            (Field::Present(id), Field::Present(subreddit), Field::Present(url), Field::Present(is_self)) => {
                Ok(
                    SavedPost {
                        id,
                        subreddit,
                        url,
                        is_self,
                        is_gallery,
                        post_hint,
                        media_metadata,
                        secure_media,
                    },
                )
            },
            (id, subreddit, url, is_self) => {
                let mismatch = matches!(id, Field::Mismatch) || matches!(subreddit, Field::Mismatch)
                    || matches!(url, Field::Mismatch) || matches!(is_self, Field::Mismatch);
                if mismatch {
                    Err(ShapeError::IncompatibleField)
                } else {
                    Err(ShapeError::MissingField)
                }
            },
        }
    }
}

} // verus!
