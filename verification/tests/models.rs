use rspd::models::{
    status_is_success, Field, GalleryMetadata, Payload, SavedPost, ShapeError,
};

fn text(value: &str) -> Field<String> {
    Field::Present(value.to_string())
}

fn link_payload() -> Payload {
    Payload {
        id: text("abc"),
        subreddit: text("pics"),
        url: text("https://i.redd.it/abc.png"),
        is_self: Field::Present(false),
        is_gallery: Field::Absent,
        post_hint: Field::Absent,
        media_metadata: None,
        secure_media: None,
    }
}

fn ids(gallery: &GalleryMetadata) -> Vec<String> {
    gallery.items().iter().map(|item| item.media_id.clone()).collect()
}

#[test]
fn gallery_keeps_its_items_in_the_order_of_their_ids() {
    let mut gallery = GalleryMetadata::new();
    assert!(gallery.items().is_empty());
    gallery.insert("m".to_string(), Some("u-m".to_string()));
    gallery.insert("b".to_string(), None);
    gallery.insert("z".to_string(), Some("u-z".to_string()));
    gallery.insert("a".to_string(), Some("u-a".to_string()));
    gallery.insert("ma".to_string(), Some("u-ma".to_string()));
    assert_eq!(ids(&gallery), vec!["a", "b", "m", "ma", "z"]);
    assert_eq!(gallery.items()[1].url, None);
    assert_eq!(gallery.items()[3].url, Some("u-ma".to_string()));
}

#[test]
fn gallery_files_an_item_in_place_of_one_with_its_id() {
    let mut gallery = GalleryMetadata::new();
    gallery.insert("b".to_string(), Some("first".to_string()));
    gallery.insert("a".to_string(), Some("other".to_string()));
    gallery.insert("b".to_string(), Some("second".to_string()));
    assert_eq!(ids(&gallery), vec!["a", "b"]);
    assert_eq!(gallery.items()[1].url, Some("second".to_string()));
}

#[test]
fn gallery_orders_ids_as_the_standard_map_does() {
    let keys = ["é", "z", "Z", "10", "9", "", "a b", "ab", "a", "→"];
    let mut gallery = GalleryMetadata::new();
    let mut map = std::collections::BTreeMap::new();
    for key in keys {
        gallery.insert(key.to_string(), None);
        map.insert(key.to_string(), ());
    }
    assert_eq!(ids(&gallery), map.keys().cloned().collect::<Vec<String>>());
}

#[test]
fn a_complete_payload_makes_a_post() {
    let mut payload = link_payload();
    payload.is_gallery = Field::Present(true);
    payload.post_hint = text("image");
    let post = SavedPost::from_payload(payload).unwrap();
    assert_eq!(post.id, "abc");
    assert_eq!(post.subreddit, "pics");
    assert_eq!(post.url, "https://i.redd.it/abc.png");
    assert!(!post.is_self);
    assert_eq!(post.is_gallery, Some(true));
    assert_eq!(post.post_hint, Some("image".to_string()));
    assert!(post.media_metadata.is_none());
    assert!(post.secure_media.is_none());
}

#[test]
fn optional_keys_may_be_absent() {
    let post = SavedPost::from_payload(link_payload()).unwrap();
    assert_eq!(post.is_gallery, None);
    assert_eq!(post.post_hint, None);
}

#[test]
fn a_missing_required_key_makes_no_post() {
    let mut payload = link_payload();
    payload.id = Field::Absent;
    assert_eq!(SavedPost::from_payload(payload).err(), Some(ShapeError::MissingField));
    let mut payload = link_payload();
    payload.subreddit = Field::Absent;
    assert_eq!(SavedPost::from_payload(payload).err(), Some(ShapeError::MissingField));
    let mut payload = link_payload();
    payload.url = Field::Absent;
    assert_eq!(SavedPost::from_payload(payload).err(), Some(ShapeError::MissingField));
    let mut payload = link_payload();
    payload.is_self = Field::Absent;
    assert_eq!(SavedPost::from_payload(payload).err(), Some(ShapeError::MissingField));
}

#[test]
fn a_key_of_the_wrong_type_makes_no_post() {
    let mut payload = link_payload();
    payload.url = Field::Mismatch;
    assert_eq!(SavedPost::from_payload(payload).err(), Some(ShapeError::IncompatibleField));
    let mut payload = link_payload();
    payload.is_gallery = Field::Mismatch;
    assert_eq!(SavedPost::from_payload(payload).err(), Some(ShapeError::IncompatibleField));
    let mut payload = link_payload();
    payload.post_hint = Field::Mismatch;
    assert_eq!(SavedPost::from_payload(payload).err(), Some(ShapeError::IncompatibleField));
    let mut payload = link_payload();
    payload.id = Field::Absent;
    payload.is_self = Field::Mismatch;
    assert_eq!(SavedPost::from_payload(payload).err(), Some(ShapeError::IncompatibleField));
}

#[test]
fn successful_statuses_are_200_to_299() {
    for status in [200, 201, 204, 250, 299] {
        assert!(status_is_success(status), "{}", status);
    }
    for status in [0, 100, 199, 300, 304, 404, 500, u16::MAX] {
        assert!(!status_is_success(status), "{}", status);
    }
}
