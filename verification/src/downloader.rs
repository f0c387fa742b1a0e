//! The media of a post: which files to fetch for it, under which names, and how the
//! answer to a download is judged.

use crate::models::{
    fallback_url_of, is_success, status_is_success, GalleryItemView, SavedPost, SavedPostView,
};
use crate::text::{
    decimal, decimal_string, decode_ampersands, ends_with, extension, is_suffix, str_equal,
    to_chars, unescape_ampersands, url_extension, url_path,
};
use vstd::prelude::*;
use vstd::string::*;

verus! {

/// The hint that marks a post whose media is a video that the site hosts.
pub const HOSTED_VIDEO_HINT: &'static str = "hosted-video";

/// The extension that a file gets where its address shows none.
pub const DEFAULT_EXTENSION: &'static str = "jpg";

/// One file to fetch: where from, and the name to store it under in the post's folder.
#[derive(Debug)]
pub struct Download {
    pub url: String,
    pub filename: String,
}

/// A download with its texts as sequences of characters.
pub struct DownloadView {
    pub url: Seq<char>,
    pub filename: Seq<char>,
}

impl View for Download {
    type V = DownloadView;

    open spec fn view(&self) -> DownloadView {
        DownloadView { url: self.url@, filename: self.filename@ }
    }
}

impl DeepView for Download {
    type V = DownloadView;

    open spec fn deep_view(&self) -> DownloadView {
        self@
    }
}

/// What saving one post takes: the folder to make sure of, and the files to fetch
/// into it, in order.
#[derive(Debug)]
pub struct SavePlan {
    pub folder: String,
    pub downloads: Vec<Download>,
}

/// A plan with its folder and downloads as mathematical values.
pub struct SavePlanView {
    pub folder: Seq<char>,
    pub downloads: Seq<DownloadView>,
}

impl View for SavePlan {
    type V = SavePlanView;

    open spec fn view(&self) -> SavePlanView {
        SavePlanView { folder: self.folder@, downloads: self.downloads.deep_view() }
    }
}

impl DeepView for SavePlan {
    type V = SavePlanView;

    open spec fn deep_view(&self) -> SavePlanView {
        self@
    }
}

/// A download that was answered with a status outside the successful range.
#[derive(Debug)]
pub struct DownloadError {
    pub url: String,
    pub status: u16,
}

/// The address ends like a file of one of the supported image kinds.
pub open spec fn is_direct_image(url: Seq<char>) -> bool {
    is_suffix(".jpg"@, url) || is_suffix(".jpeg"@, url) || is_suffix(".png"@, url) || is_suffix(
        ".gif"@,
        url,
    ) || is_suffix(".webp"@, url)
}

/// The extension that the path of the address shows, or the default where it shows
/// none. The query and the fragment of the address are no part of it, nor is its host.
pub open spec fn extension_or_default(url: Seq<char>) -> Seq<char> {
    match extension(url_path(url)) {
        Some(ext) => ext,
        None => DEFAULT_EXTENSION@,
    }
}

/// The name of the file that holds the single image of the post `id`.
pub open spec fn image_filename(id: Seq<char>, url: Seq<char>) -> Seq<char> {
    id + "."@ + extension_or_default(url)
}

/// The name of the file that holds the video of the post `id`.
pub open spec fn video_filename(id: Seq<char>) -> Seq<char> {
    id + ".mp4"@
}

/// The name of the file that holds image number `index` of the gallery post `id`.
pub open spec fn gallery_filename(id: Seq<char>, index: nat, url: Seq<char>) -> Seq<char> {
    id + "_gallery_"@ + decimal(index) + "."@ + extension_or_default(url)
}

/// The download for the gallery item whose source is written `raw`, as number `index`.
pub open spec fn gallery_download(id: Seq<char>, index: nat, raw: Seq<char>) -> DownloadView {
    let url = unescape_ampersands(raw);
    DownloadView { url, filename: gallery_filename(id, index, url) }
}

/// The downloads of a gallery: one for each item that names a source, in the order
/// of the items, numbered from one; an item without a source takes no number.
pub open spec fn gallery_downloads(id: Seq<char>, items: Seq<GalleryItemView>) -> Seq<DownloadView>
    decreases items.len(),
{
    if items.len() == 0 {
        Seq::empty()
    } else {
        let before = gallery_downloads(id, items.drop_last());
        match items.last().url {
            Some(raw) => before.push(gallery_download(id, before.len() + 1, raw)),
            None => before,
        }
    }
}

/// The downloads of a post treated as a gallery.
pub open spec fn gallery_plan(post: SavedPostView) -> Seq<DownloadView> {
    match post.media_metadata {
        Some(items) => gallery_downloads(post.id, items),
        None => Seq::empty(),
    }
}

/// The downloads of a post treated as a hosted video: its fallback address, if the
/// post names one.
pub open spec fn video_plan(post: SavedPostView) -> Seq<DownloadView> {
    match fallback_url_of(post.secure_media) {
        Some(url) => seq![DownloadView { url, filename: video_filename(post.id) }],
        None => Seq::empty(),
    }
}

/// The downloads of a post treated as a single image: its address, if that ends like
/// a supported image.
pub open spec fn image_plan(post: SavedPostView) -> Seq<DownloadView> {
    if is_direct_image(post.url) {
        seq![DownloadView { url: post.url, filename: image_filename(post.id, post.url) }]
    } else {
        Seq::empty()
    }
}

/// The files to fetch for a post. A text post has none. Of the others a gallery goes
/// first, then a hosted video, and whatever is left is taken for a single image.
pub open spec fn downloads_of(post: SavedPostView) -> Seq<DownloadView> {
    if post.is_self {
        Seq::empty()
    } else if post.is_gallery == Some(true) {
        gallery_plan(post)
    } else if post.post_hint == Some(HOSTED_VIDEO_HINT@) {
        video_plan(post)
    } else {
        image_plan(post)
    }
}

/// The plan for a post whose folder is `folder`.
pub open spec fn plan_of(post: SavedPostView, folder: Seq<char>) -> SavePlanView {
    SavePlanView { folder, downloads: downloads_of(post) }
}

/// A gallery yields no more downloads than it has items.
pub proof fn lemma_gallery_downloads_len(id: Seq<char>, items: Seq<GalleryItemView>)
    ensures
        gallery_downloads(id, items).len() <= items.len(),
    decreases items.len(),
{
    if items.len() > 0 {
        lemma_gallery_downloads_len(id, items.drop_last());
    }
}

/// A gallery whose items all name a source yields exactly one download per item, in
/// the order of the items, and the file of item `i`, counted from zero, carries the
/// number `i + 1`.
pub proof fn lemma_gallery_numbering(id: Seq<char>, items: Seq<GalleryItemView>)
    requires
        forall|i: int| 0 <= i < items.len() ==> (#[trigger] items[i]).url is Some,
    ensures
        gallery_downloads(id, items).len() == items.len(),
        forall|i: int|
            0 <= i < items.len() ==> #[trigger] gallery_downloads(id, items)[i] == gallery_download(
                id,
                (i + 1) as nat,
                items[i].url->Some_0,
            ),
    decreases items.len(),
{
    if items.len() > 0 {
        let front = items.drop_last();
        assert forall|i: int| 0 <= i < front.len() implies (#[trigger] front[i]).url is Some by {
            assert(front[i] == items[i]);
        }
        lemma_gallery_numbering(id, front);
        assert(items.last().url is Some);
        assert forall|i: int| 0 <= i < items.len() implies #[trigger] gallery_downloads(
            id,
            items,
        )[i] == gallery_download(id, (i + 1) as nat, items[i].url->Some_0) by {
            if i < front.len() {
                assert(front[i] == items[i]);
                assert(gallery_downloads(id, items)[i] == gallery_downloads(id, front)[i]);
            }
        }
    }
}

/// What `sanitize_filename::sanitize` makes of a name.
pub uninterp spec fn sanitized(name: Seq<char>) -> Seq<char>;

/// Cleans a name with `sanitize_filename::sanitize`, which takes out of it what a
/// file name cannot hold, with the options that the crate sets by default for the
/// platform it is built for. The contract only gives the result its name, `sanitized`.
#[verifier::external_body]
fn sanitize_name(name: &str) -> (clean: String)
    ensures
        clean@ == sanitized(name@),
{
    sanitize_filename::sanitize(name)
}

/// The extension for the file that `url` names.
fn extension_of(url: &str) -> (ext: String)
    ensures
        ext@ == extension_or_default(url@),
{
    match url_extension(url) {
        Some(ext) => ext,
        None => String::from_str(DEFAULT_EXTENSION),
    }
}

/// Returns a name for a saved post, composed of the post ID and the appropriate extension.
pub fn get_filename(post: &SavedPost) -> (name: String)
    ensures
        name@ == image_filename(post@.id, post@.url),
{
    let ext = extension_of(post.url.as_str());
    let mut name = post.id.clone();
    name.append(".");
    name.append(ext.as_str());
    name
}

/// Whether a post's address ends like a file of one of the supported image kinds.
pub fn ends_like_image(url: &str) -> (direct: bool)
    ensures
        direct == is_direct_image(url@),
{
    let chars = to_chars(url);
    ends_with(&chars, ".jpg") || ends_with(&chars, ".jpeg") || ends_with(&chars, ".png")
        || ends_with(&chars, ".gif") || ends_with(&chars, ".webp")
}

/// Handles download logic when post is a single image.
pub fn handle_image(post: &SavedPost) -> (downloads: Vec<Download>)
    ensures
        downloads.deep_view() == image_plan(post@),
{
    let mut downloads: Vec<Download> = Vec::new();
    if ends_like_image(post.url.as_str()) {
        let filename = get_filename(post);
        downloads.push(Download { url: post.url.clone(), filename });
    }
    assert(downloads.deep_view() =~= image_plan(post@));
    downloads
}

/// Handles download logic when post is a single video
pub fn handle_video(post: &SavedPost) -> (downloads: Vec<Download>)
    ensures
        downloads.deep_view() == video_plan(post@),
{
    let mut downloads: Vec<Download> = Vec::new();
    if let Some(secure_media) = &post.secure_media {
        if let Some(video_info) = &secure_media.reddit_video {
            if let Some(fallback_url) = &video_info.fallback_url {
                let mut filename = post.id.clone();
                filename.append(".mp4");
                downloads.push(Download { url: fallback_url.clone(), filename });
            }
        }
    }
    assert(downloads.deep_view() =~= video_plan(post@));
    downloads
}

/// Handles download logic when post is a gallery of images.
pub fn handle_gallery(post: &SavedPost) -> (downloads: Vec<Download>)
    ensures
        downloads.deep_view() == gallery_plan(post@),
{
    let mut downloads: Vec<Download> = Vec::new();
    assert(downloads.deep_view() =~= Seq::<DownloadView>::empty());
    if let Some(media_meta) = &post.media_metadata {
        let items = media_meta.items();
        let ghost all = items.deep_view();
        let mut i: usize = 0;
        while i < items.len()
            invariant
                i <= items.len(),
                all == items.deep_view(),
                downloads.deep_view() == gallery_downloads(post@.id, all.take(i as int)),
            decreases items.len() - i,
        {
            let ghost before = downloads.deep_view();
            assert(all.take(i + 1).drop_last() =~= all.take(i as int));
            assert(all.take(i + 1).last() == items@[i as int]@);
            if let Some(item_url) = &items[i].url {
                proof {
                    lemma_gallery_downloads_len(post@.id, all.take(i as int));
                }
                let clean_url = decode_ampersands(item_url.as_str());
                let extension = extension_of(clean_url.as_str());
                let count: usize = downloads.len() + 1;
                let mut filename = post.id.clone();
                filename.append("_gallery_");
                filename.append(decimal_string(count).as_str());
                filename.append(".");
                filename.append(extension.as_str());
                downloads.push(Download { url: clean_url, filename });
                assert(downloads.deep_view() =~= before.push(
                    gallery_download(post@.id, (before.len() + 1) as nat, item_url@),
                ));
            }
            i += 1;
        }
        assert(all.take(items.len() as int) =~= all);
    }
    downloads
}

/// The plan for saving `post` into the folder named `folder`.
pub fn plan_post(post: &SavedPost, folder: String) -> (plan: SavePlan)
    ensures
        plan@ == plan_of(post@, folder@),
{
    let downloads = if post.is_self {
        let none: Vec<Download> = Vec::new();
        assert(none.deep_view() =~= Seq::<DownloadView>::empty());
        none
    } else if matches!(post.is_gallery, Some(true)) {
        handle_gallery(post)
    } else if is_hosted_video(&post.post_hint) {
        handle_video(post)
    } else {
        handle_image(post)
    };
    SavePlan { folder, downloads }
}

/// Whether the hint marks a hosted video.
fn is_hosted_video(post_hint: &Option<String>) -> (hosted: bool)
    ensures
        hosted == (post_hint.deep_view() == Some(HOSTED_VIDEO_HINT@)),
{
    match post_hint {
        Some(hint) => str_equal(hint.as_str(), HOSTED_VIDEO_HINT),
        None => false,
    }
}

/// Plans the saving of a single post: the folder is the post's subreddit, cleaned
/// for use as a file name, and the files are those that the post's kind calls for.
/// A text post takes its folder and no file.
pub fn save_post(post: &SavedPost) -> (plan: SavePlan)
    ensures
        plan@ == plan_of(post@, sanitized(post@.subreddit)),
        post.is_self ==> plan@.downloads.len() == 0,
{
    let subreddit_folder_name = sanitize_name(post.subreddit.as_str());
    plan_post(post, subreddit_folder_name)
}

/// Plans the saving of a list of posts: one plan for each post, in the order of the posts.
pub fn save_posts(posts: &Vec<SavedPost>) -> (plans: Vec<SavePlan>)
    ensures
        plans.len() == posts.len(),
        forall|i: int|
            0 <= i < posts.len() ==> (#[trigger] plans[i])@ == plan_of(
                posts[i]@,
                sanitized(posts[i]@.subreddit),
            ),
{
    let mut plans: Vec<SavePlan> = Vec::new();
    let mut i: usize = 0;
    while i < posts.len()
        invariant
            i <= posts.len(),
            plans.len() == i,
            forall|j: int|
                0 <= j < i ==> (#[trigger] plans[j])@ == plan_of(
                    posts[j]@,
                    sanitized(posts[j]@.subreddit),
                ),
        decreases posts.len() - i,
    {
        plans.push(save_post(&posts[i]));
        i += 1;
    }
    plans
}

/// Judges the answer to the download of `url` by its status: the body is to be
/// written if the status is a successful one, and the download has failed if not.
pub fn download_file(url: &str, status: u16) -> (outcome: Result<(), DownloadError>)
    ensures
        outcome.is_ok() == is_success(status),
        outcome matches Err(e) ==> e.url@ == url@ && e.status == status,
{
    if status_is_success(status) {
        Ok(())
    } else {
        Err(DownloadError { url: String::from_str(url), status })
    }
}

} // verus!
