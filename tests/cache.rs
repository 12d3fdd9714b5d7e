use twitchrs::image_loader::{
    BadgeImage, FetchRequest, FetchResult, ImageRequest, TwitchImageLoader, WorkerStep,
};
use twitchrs::twitch_message::{TwitchBadge, TwitchEmote};

fn badge(set: &str, version: &str) -> TwitchBadge {
    TwitchBadge { set: set.to_string(), version: version.to_string() }
}

fn image(set: &str, version: &str, url: &str) -> BadgeImage {
    BadgeImage { set: set.to_string(), version: version.to_string(), image_url: url.to_string() }
}

fn fetch_of(step: WorkerStep) -> FetchRequest {
    match step {
        WorkerStep::Fetch(f) => f,
        _ => panic!("expected a fetch"),
    }
}

fn url_of(f: &FetchRequest) -> String {
    match f {
        FetchRequest::Url(u) => u.clone(),
        _ => panic!("expected a URL fetch"),
    }
}

#[test]
fn emote_cache_hit_needs_no_second_fetch() {
    let mut loader = TwitchImageLoader::new();
    assert_eq!(loader.get_emote(55), None);
    let req = ImageRequest::Emote(55);
    let f = fetch_of(loader.begin_request(&req));
    assert!(matches!(f, FetchRequest::EmoteImage(55)));
    match loader.complete_fetch(&req, &f, FetchResult::Bytes(vec![1, 2, 3])) {
        WorkerStep::ReplyBytes(b) => assert_eq!(b, vec![1, 2, 3]),
        _ => panic!("expected a reply"),
    }
    assert_eq!(loader.get_emote(55), Some(vec![1, 2, 3]));
    match loader.begin_request(&req) {
        WorkerStep::ReplyBytes(b) => assert_eq!(b, vec![1, 2, 3]),
        _ => panic!("expected a reply from the cache"),
    }
    assert_eq!(loader.get_emote(56), None);
}

#[test]
fn badge_resolves_through_one_listing_and_one_url_fetch() {
    let mut loader = TwitchImageLoader::new();
    let b = badge("subscriber", "1");
    assert_eq!(loader.get_badge(&b), None);
    let req = ImageRequest::Badge(b.clone());
    let first = fetch_of(loader.begin_request(&req));
    assert!(matches!(first, FetchRequest::GlobalBadges));
    let listing = vec![
        image("subscriber", "0", "http://x/sub0"),
        image("subscriber", "1", "http://x/sub1"),
        image("moderator", "1", "http://x/mod1"),
    ];
    let second = fetch_of(loader.complete_fetch(&req, &first, FetchResult::BadgeSets(listing)));
    assert_eq!(url_of(&second), "http://x/sub1");
    match loader.complete_fetch(&req, &second, FetchResult::Bytes(vec![9, 9])) {
        WorkerStep::ReplyBytes(bytes) => assert_eq!(bytes, vec![9, 9]),
        _ => panic!("expected a reply"),
    }
    assert_eq!(loader.get_badge(&b), Some(vec![9, 9]));
    // The listing is in the index now: another badge needs its URL only.
    let m = badge("moderator", "1");
    let req = ImageRequest::Badge(m.clone());
    let f = fetch_of(loader.begin_request(&req));
    assert_eq!(url_of(&f), "http://x/mod1");
}

#[test]
fn badge_missing_from_listing_gets_no_reply() {
    let mut loader = TwitchImageLoader::new();
    let req = ImageRequest::Badge(badge("turbo", "1"));
    let f = fetch_of(loader.begin_request(&req));
    let step = loader.complete_fetch(&req, &f, FetchResult::BadgeSets(vec![image("a", "1", "u")]));
    assert!(matches!(step, WorkerStep::NoReply));
    assert_eq!(loader.get_badge(&badge("turbo", "1")), None);
    assert_eq!(loader.get_badge(&badge("a", "1")), None);
}

#[test]
fn duplicate_misses_each_fetch() {
    let mut loader = TwitchImageLoader::new();
    let b = badge("staff", "1");
    assert_eq!(loader.get_badge(&b), None);
    assert_eq!(loader.get_badge(&b), None);
    let first = ImageRequest::Badge(b.clone());
    let second = ImageRequest::Badge(b.clone());
    let f1 = fetch_of(loader.begin_request(&first));
    let f2 = fetch_of(loader.begin_request(&second));
    assert!(matches!(f1, FetchRequest::GlobalBadges));
    assert!(matches!(f2, FetchRequest::GlobalBadges));
    let listing = || vec![image("staff", "1", "http://x/staff")];
    let u1 = fetch_of(loader.complete_fetch(&first, &f1, FetchResult::BadgeSets(listing())));
    let u2 = fetch_of(loader.complete_fetch(&second, &f2, FetchResult::BadgeSets(listing())));
    assert_eq!(url_of(&u1), url_of(&u2));
    assert!(matches!(
        loader.complete_fetch(&first, &u1, FetchResult::Bytes(vec![1])),
        WorkerStep::ReplyBytes(_)
    ));
    assert!(matches!(
        loader.complete_fetch(&second, &u2, FetchResult::Bytes(vec![1])),
        WorkerStep::ReplyBytes(_)
    ));
}

#[test]
fn failed_fetch_is_never_answered() {
    let mut loader = TwitchImageLoader::new();
    let req = ImageRequest::Emote(7);
    let f = fetch_of(loader.begin_request(&req));
    assert!(matches!(loader.complete_fetch(&req, &f, FetchResult::Failed), WorkerStep::NoReply));
    assert_eq!(loader.get_emote(7), None);
    let req = ImageRequest::Badge(badge("subscriber", "1"));
    let f = fetch_of(loader.begin_request(&req));
    assert!(matches!(loader.complete_fetch(&req, &f, FetchResult::Failed), WorkerStep::NoReply));
    assert!(matches!(loader.begin_request(&req), WorkerStep::Fetch(FetchRequest::GlobalBadges)));
}

#[test]
fn subscriber_badges_are_per_channel() {
    let mut loader = TwitchImageLoader::new();
    let b = badge("subscriber", "3");
    let chan = String::from("somechannel");
    assert_eq!(loader.get_subscriber_badge(&b, &chan), None);
    let req = ImageRequest::SubBadge(chan.clone(), b.clone());
    let f = fetch_of(loader.begin_request(&req));
    match &f {
        FetchRequest::SubscriberBadges(c) => assert_eq!(c, "somechannel"),
        _ => panic!("expected the channel's badge listing"),
    }
    let listing = vec![image("bits", "3", "http://x/bits3"), image("subscriber", "3", "http://x/s3")];
    let u = fetch_of(loader.complete_fetch(&req, &f, FetchResult::BadgeSets(listing)));
    assert_eq!(url_of(&u), "http://x/s3");
    assert!(matches!(
        loader.complete_fetch(&req, &u, FetchResult::Bytes(vec![4])),
        WorkerStep::ReplyBytes(_)
    ));
    assert_eq!(loader.get_subscriber_badge(&b, &chan), Some(vec![4]));
    assert_eq!(loader.get_subscriber_badge(&b, &String::from("other")), None);
    assert_eq!(loader.get_badge(&b), None);
    // The same URL serves a global lookup once the index points at it.
    let g = ImageRequest::Badge(b.clone());
    let f = fetch_of(loader.begin_request(&g));
    let step = loader.complete_fetch(&g, &f, FetchResult::BadgeSets(vec![image("subscriber", "3", "http://x/s3")]));
    assert_eq!(url_of(&fetch_of(step)), "http://x/s3");
    assert_eq!(loader.get_badge(&b), Some(vec![4]));
}

#[test]
fn emote_sets_are_cached() {
    let mut loader = TwitchImageLoader::new();
    assert!(loader.get_emote_set(0).is_none());
    let req = ImageRequest::EmoteSet(0);
    let f = fetch_of(loader.begin_request(&req));
    assert!(matches!(f, FetchRequest::EmoteSets(0)));
    let emotes = vec![
        TwitchEmote { id: 25, code: String::from("Kappa") },
        TwitchEmote { id: 88, code: String::from("PogChamp") },
    ];
    match loader.complete_fetch(&req, &f, FetchResult::Emotes(emotes)) {
        WorkerStep::ReplyEmotes(l) => assert_eq!(l.len(), 2),
        _ => panic!("expected a reply"),
    }
    let cached = loader.get_emote_set(0).unwrap();
    let codes: Vec<(u64, String)> = cached.iter().map(|e| (e.id, e.code.clone())).collect();
    assert_eq!(codes, vec![(25, String::from("Kappa")), (88, String::from("PogChamp"))]);
    assert!(matches!(loader.begin_request(&req), WorkerStep::ReplyEmotes(_)));
}

#[test]
fn mismatched_result_is_not_answered() {
    let mut loader = TwitchImageLoader::new();
    let req = ImageRequest::Emote(1);
    let f = FetchRequest::EmoteImage(1);
    assert!(matches!(
        loader.complete_fetch(&req, &f, FetchResult::Emotes(Vec::new())),
        WorkerStep::NoReply
    ));
    assert_eq!(loader.get_emote(1), None);
}

#[test]
fn failed_url_fetch_after_listing_is_not_answered() {
    let mut loader = TwitchImageLoader::new();
    let req = ImageRequest::Badge(badge("vip", "1"));
    let f = fetch_of(loader.begin_request(&req));
    let u = fetch_of(loader.complete_fetch(&req, &f, FetchResult::BadgeSets(vec![image("vip", "1", "http://x/vip")])));
    assert!(matches!(loader.complete_fetch(&req, &u, FetchResult::Failed), WorkerStep::NoReply));
    assert_eq!(loader.get_badge(&badge("vip", "1")), None);
    // The index kept the listing, so a later request fetches the URL only.
    assert_eq!(url_of(&fetch_of(loader.begin_request(&req))), "http://x/vip");
}
