//! A cache that resolves badges and emotes to image bytes.
//!
//! The store keeps five maps: badge to URL, (channel, badge) to URL for
//! subscriber badges, URL to bytes, emote id to bytes and emote set id to the
//! emotes of the set. Entries are never evicted.
//!
//! Callers look a key up with the `get_*` functions; on a miss they hand an
//! `ImageRequest` to a single worker. The worker drives each request through
//! `begin_request` and `complete_fetch`: each returns the next step, which is
//! either a fetch for the worker to perform, a reply, or no reply at all (a
//! failed fetch is never answered).
use vstd::prelude::*;
use vstd::hash_map::{HashMapWithView, StringHashMap};
use crate::text_index::{TextIndex, key_view};
use crate::twitch_message::{TwitchBadge, TwitchEmote, emotes_view, copy_emotes};

verus! {

broadcast use vstd::std_specs::hash::axiom_u64_obeys_hash_table_key_model;

/// A request that the worker resolves.
pub enum ImageRequest {
    /// The image of a global badge.
    Badge(TwitchBadge),
    /// The image of a subscriber badge of a channel.
    SubBadge(String, TwitchBadge),
    /// The image of an emote.
    Emote(u64),
    /// The emotes of an emote set.
    EmoteSet(u64),
}

/// A fetch that the worker performs for the cache.
pub enum FetchRequest {
    /// The content at a URL.
    Url(String),
    /// The global badge sets.
    GlobalBadges,
    /// The subscriber badges of a channel.
    SubscriberBadges(String),
    /// The image of an emote.
    EmoteImage(u64),
    /// The members of an emote set.
    EmoteSets(u64),
}

/// One version of a badge set with the URL of its image.
pub struct BadgeImage {
    pub set: String,
    pub version: String,
    pub image_url: String,
}

/// What a fetch gave.
pub enum FetchResult {
    Bytes(Vec<u8>),
    BadgeSets(Vec<BadgeImage>),
    Emotes(Vec<TwitchEmote>),
    Failed,
}

/// What the worker does next for a request.
pub enum WorkerStep {
    /// Perform this fetch and hand its result to `complete_fetch`.
    Fetch(FetchRequest),
    /// Answer the request with image bytes.
    ReplyBytes(Vec<u8>),
    /// Answer the request with the emotes of a set.
    ReplyEmotes(Vec<TwitchEmote>),
    /// The request is not answered.
    NoReply,
}

pub enum RequestView {
    Badge(Seq<char>, Seq<char>),
    SubBadge(Seq<char>, Seq<char>, Seq<char>),
    Emote(u64),
    EmoteSet(u64),
}

pub enum FetchView {
    Url(Seq<char>),
    GlobalBadges,
    SubscriberBadges(Seq<char>),
    EmoteImage(u64),
    EmoteSets(u64),
}

pub enum ResultView {
    Bytes(Seq<u8>),
    BadgeSets(Seq<(Seq<char>, Seq<char>, Seq<char>)>),
    Emotes(Seq<(u64, Seq<char>)>),
    Failed,
}

pub enum StepView {
    Fetch(FetchView),
    ReplyBytes(Seq<u8>),
    ReplyEmotes(Seq<(u64, Seq<char>)>),
    NoReply,
}

impl View for ImageRequest {
    type V = RequestView;

    open spec fn view(&self) -> RequestView {
        match self {
            ImageRequest::Badge(b) => RequestView::Badge(b.set@, b.version@),
            ImageRequest::SubBadge(c, b) => RequestView::SubBadge(c@, b.set@, b.version@),
            ImageRequest::Emote(id) => RequestView::Emote(*id),
            ImageRequest::EmoteSet(id) => RequestView::EmoteSet(*id),
        }
    }
}

impl View for FetchRequest {
    type V = FetchView;

    open spec fn view(&self) -> FetchView {
        match self {
            FetchRequest::Url(u) => FetchView::Url(u@),
            FetchRequest::GlobalBadges => FetchView::GlobalBadges,
            FetchRequest::SubscriberBadges(c) => FetchView::SubscriberBadges(c@),
            FetchRequest::EmoteImage(id) => FetchView::EmoteImage(*id),
            FetchRequest::EmoteSets(id) => FetchView::EmoteSets(*id),
        }
    }
}

impl View for BadgeImage {
    type V = (Seq<char>, Seq<char>, Seq<char>);

    open spec fn view(&self) -> (Seq<char>, Seq<char>, Seq<char>) {
        (self.set@, self.version@, self.image_url@)
    }
}

/// The badge images as (set, version, URL) triples.
pub open spec fn badge_images_view(v: Seq<BadgeImage>) -> Seq<(Seq<char>, Seq<char>, Seq<char>)> {
    v.map_values(|b: BadgeImage| b@)
}

impl View for FetchResult {
    type V = ResultView;

    open spec fn view(&self) -> ResultView {
        match self {
            FetchResult::Bytes(b) => ResultView::Bytes(b@),
            FetchResult::BadgeSets(l) => ResultView::BadgeSets(badge_images_view(l@)),
            FetchResult::Emotes(l) => ResultView::Emotes(emotes_view(l@)),
            FetchResult::Failed => ResultView::Failed,
        }
    }
}

impl View for WorkerStep {
    type V = StepView;

    open spec fn view(&self) -> StepView {
        match self {
            WorkerStep::Fetch(f) => StepView::Fetch(f@),
            WorkerStep::ReplyBytes(b) => StepView::ReplyBytes(b@),
            WorkerStep::ReplyEmotes(l) => StepView::ReplyEmotes(emotes_view(l@)),
            WorkerStep::NoReply => StepView::NoReply,
        }
    }
}

/// What the cache holds.
pub struct StoreView {
    pub badge_urls: Map<Seq<Seq<char>>, Seq<char>>,
    pub sub_badge_urls: Map<Seq<Seq<char>>, Seq<char>>,
    pub urls: Map<Seq<char>, Seq<u8>>,
    pub emotes: Map<u64, Seq<u8>>,
    pub emote_sets: Map<u64, Seq<(u64, Seq<char>)>>,
}

/// The store with nothing in it.
pub open spec fn empty_store() -> StoreView {
    StoreView {
        badge_urls: Map::empty(),
        sub_badge_urls: Map::empty(),
        urls: Map::empty(),
        emotes: Map::empty(),
        emote_sets: Map::empty(),
    }
}

/// The set whose versions a channel's subscriber badges are.
pub open spec fn subscriber_set() -> Seq<char> {
    seq!['s', 'u', 'b', 's', 'c', 'r', 'i', 'b', 'e', 'r']
}

/// The key of a global badge.
pub open spec fn badge_key(set: Seq<char>, version: Seq<char>) -> Seq<Seq<char>> {
    seq![set, version]
}

/// The key of a subscriber badge of a channel.
pub open spec fn sub_badge_key(chan: Seq<char>, set: Seq<char>, version: Seq<char>) -> Seq<
    Seq<char>,
> {
    seq![chan, set, version]
}

/// The bytes of a badge, if the store has its URL and the URL's content.
pub open spec fn cached_badge(s: StoreView, set: Seq<char>, version: Seq<char>) -> Option<Seq<u8>> {
    let k = badge_key(set, version);
    if s.badge_urls.contains_key(k) && s.urls.contains_key(s.badge_urls[k]) {
        Some(s.urls[s.badge_urls[k]])
    } else {
        None
    }
}

/// The bytes of a subscriber badge, if the store has its URL and the URL's
/// content.
pub open spec fn cached_sub_badge(
    s: StoreView,
    chan: Seq<char>,
    set: Seq<char>,
    version: Seq<char>,
) -> Option<Seq<u8>> {
    let k = sub_badge_key(chan, set, version);
    if s.sub_badge_urls.contains_key(k) && s.urls.contains_key(s.sub_badge_urls[k]) {
        Some(s.urls[s.sub_badge_urls[k]])
    } else {
        None
    }
}

/// The global badges of a listing added to the badge index; a later entry
/// wins over an earlier one.
pub open spec fn add_badges(
    m: Map<Seq<Seq<char>>, Seq<char>>,
    l: Seq<(Seq<char>, Seq<char>, Seq<char>)>,
) -> Map<Seq<Seq<char>>, Seq<char>>
    decreases l.len(),
{
    if l.len() == 0 {
        m
    } else {
        add_badges(m, l.drop_last()).insert(badge_key(l.last().0, l.last().1), l.last().2)
    }
}

/// The subscriber versions of a channel's badge listing added to the
/// subscriber badge index; other sets are left out.
pub open spec fn add_sub_badges(
    m: Map<Seq<Seq<char>>, Seq<char>>,
    chan: Seq<char>,
    l: Seq<(Seq<char>, Seq<char>, Seq<char>)>,
) -> Map<Seq<Seq<char>>, Seq<char>>
    decreases l.len(),
{
    if l.len() == 0 {
        m
    } else if l.last().0 == subscriber_set() {
        add_sub_badges(m, chan, l.drop_last()).insert(
            sub_badge_key(chan, subscriber_set(), l.last().1),
            l.last().2,
        )
    } else {
        add_sub_badges(m, chan, l.drop_last())
    }
}

/// The first step for a request: a reply from the store when it holds the
/// answer, else the fetch that the answer needs first.
pub open spec fn start_spec(s: StoreView, r: RequestView) -> StepView {
    match r {
        RequestView::Badge(set, version) => {
            let k = badge_key(set, version);
            if !s.badge_urls.contains_key(k) {
                StepView::Fetch(FetchView::GlobalBadges)
            } else if s.urls.contains_key(s.badge_urls[k]) {
                StepView::ReplyBytes(s.urls[s.badge_urls[k]])
            } else {
                StepView::Fetch(FetchView::Url(s.badge_urls[k]))
            }
        },
        RequestView::SubBadge(chan, set, version) => {
            let k = sub_badge_key(chan, set, version);
            if !s.sub_badge_urls.contains_key(k) {
                StepView::Fetch(FetchView::SubscriberBadges(chan))
            } else if s.urls.contains_key(s.sub_badge_urls[k]) {
                StepView::ReplyBytes(s.urls[s.sub_badge_urls[k]])
            } else {
                StepView::Fetch(FetchView::Url(s.sub_badge_urls[k]))
            }
        },
        RequestView::Emote(id) => {
            if s.emotes.contains_key(id) {
                StepView::ReplyBytes(s.emotes[id])
            } else {
                StepView::Fetch(FetchView::EmoteImage(id))
            }
        },
        RequestView::EmoteSet(id) => {
            if s.emote_sets.contains_key(id) {
                StepView::ReplyEmotes(s.emote_sets[id])
            } else {
                StepView::Fetch(FetchView::EmoteSets(id))
            }
        },
    }
}

/// The step after a fetch, and the store with its result: a failed fetch
/// leaves the store alone and answers nothing; fetched bytes are stored and
/// given as the answer; a badge listing fills the index, and the requested
/// badge's URL is fetched next if the index now has it.
pub open spec fn resume_spec(s: StoreView, r: RequestView, f: FetchView, res: ResultView) -> (
    StoreView,
    StepView,
) {
    match res {
        ResultView::Failed => (s, StepView::NoReply),
        ResultView::Bytes(b) => match f {
            FetchView::Url(u) => (StoreView { urls: s.urls.insert(u, b), ..s }, StepView::ReplyBytes(b)),
            FetchView::EmoteImage(id) => (
                StoreView { emotes: s.emotes.insert(id, b), ..s },
                StepView::ReplyBytes(b),
            ),
            _ => (s, StepView::NoReply),
        },
        ResultView::BadgeSets(l) => match f {
            FetchView::GlobalBadges => {
                let m = add_badges(s.badge_urls, l);
                let s2 = StoreView { badge_urls: m, ..s };
                match r {
                    RequestView::Badge(set, version) => {
                        let k = badge_key(set, version);
                        if m.contains_key(k) {
                            (s2, StepView::Fetch(FetchView::Url(m[k])))
                        } else {
                            (s2, StepView::NoReply)
                        }
                    },
                    _ => (s2, StepView::NoReply),
                }
            },
            FetchView::SubscriberBadges(chan) => {
                let m = add_sub_badges(s.sub_badge_urls, chan, l);
                let s2 = StoreView { sub_badge_urls: m, ..s };
                match r {
                    RequestView::SubBadge(c, set, version) => {
                        let k = sub_badge_key(c, set, version);
                        if m.contains_key(k) {
                            (s2, StepView::Fetch(FetchView::Url(m[k])))
                        } else {
                            (s2, StepView::NoReply)
                        }
                    },
                    _ => (s2, StepView::NoReply),
                }
            },
            _ => (s, StepView::NoReply),
        },
        ResultView::Emotes(l) => match f {
            FetchView::EmoteSets(id) => (
                StoreView { emote_sets: s.emote_sets.insert(id, l), ..s },
                StepView::ReplyEmotes(l),
            ),
            _ => (s, StepView::NoReply),
        },
    }
}

/// The bytes, if any.
pub open spec fn opt_bytes(v: Option<Vec<u8>>) -> Option<Seq<u8>> {
    match v {
        Some(b) => Some(b@),
        None => None,
    }
}

/// The emotes, if any.
pub open spec fn opt_emotes(v: Option<Vec<TwitchEmote>>) -> Option<Seq<(u64, Seq<char>)>> {
    match v {
        Some(l) => Some(emotes_view(l@)),
        None => None,
    }
}

/// A copy of a byte string.
fn copy_bytes(v: &Vec<u8>) -> (r: Vec<u8>)
    ensures
        r@ == v@,
{
    let r = v.clone();
    assert(r@ =~= v@);
    r
}

/// A copy of a string.
fn copy_text(s: &String) -> (r: String)
    ensures
        r@ == s@,
{
    s.clone()
}

/// The index key of a global badge.
fn badge_key_of(b: &TwitchBadge) -> (r: Vec<String>)
    ensures
        key_view(r@) == badge_key(b.set@, b.version@),
{
    let r = vec![copy_text(&b.set), copy_text(&b.version)];
    assert(key_view(r@) =~= badge_key(b.set@, b.version@));
    r
}

/// The index key of a subscriber badge of a channel.
fn sub_badge_key_of(chan: &String, b: &TwitchBadge) -> (r: Vec<String>)
    ensures
        key_view(r@) == sub_badge_key(chan@, b.set@, b.version@),
{
    let r = vec![copy_text(chan), copy_text(&b.set), copy_text(&b.version)];
    assert(key_view(r@) =~= sub_badge_key(chan@, b.set@, b.version@));
    r
}

/// The badge and emote image cache.
pub struct TwitchImageLoader {
    badge_url_cache: TextIndex,
    sub_badge_url_cache: TextIndex,
    url_cache: StringHashMap<Vec<u8>>,
    emote_cache: HashMapWithView<u64, Vec<u8>>,
    emote_set_cache: HashMapWithView<u64, Vec<TwitchEmote>>,
}

impl View for TwitchImageLoader {
    type V = StoreView;

    closed spec fn view(&self) -> StoreView {
        StoreView {
            badge_urls: self.badge_url_cache@,
            sub_badge_urls: self.sub_badge_url_cache@,
            urls: self.url_cache@.map_values(|v: Vec<u8>| v@),
            emotes: self.emote_cache@.map_values(|v: Vec<u8>| v@),
            emote_sets: self.emote_set_cache@.map_values(|v: Vec<TwitchEmote>| emotes_view(v@)),
        }
    }
}

impl TwitchImageLoader {
    /// An empty cache.
    pub fn new() -> (r: TwitchImageLoader)
        ensures
            r@ == empty_store(),
    {
        let r = TwitchImageLoader {
            badge_url_cache: TextIndex::new(),
            sub_badge_url_cache: TextIndex::new(),
            url_cache: StringHashMap::new(),
            emote_cache: HashMapWithView::new(),
            emote_set_cache: HashMapWithView::new(),
        };
        assert(r@.urls =~= Map::empty());
        assert(r@.emotes =~= Map::empty());
        assert(r@.emote_sets =~= Map::empty());
        r
    }

    /// The bytes held for `url`, if any.
    fn url_bytes(&self, url: &String) -> (r: Option<Vec<u8>>)
        ensures
            opt_bytes(r) == (if self@.urls.contains_key(url@) {
                Some(self@.urls[url@])
            } else {
                None
            }),
    {
        match self.url_cache.get(url.as_str()) {
            Some(b) => Some(copy_bytes(b)),
            None => None,
        }
    }

    /// The image of a global badge, when the cache holds it.
    pub fn get_badge(&self, badge: &TwitchBadge) -> (r: Option<Vec<u8>>)
        ensures
            opt_bytes(r) == cached_badge(self@, badge.set@, badge.version@),
    {
        let k = badge_key_of(badge);
        match self.badge_url_cache.get(&k) {
            Some(url) => self.url_bytes(url),
            None => None,
        }
    }

    /// The image of a subscriber badge of channel `chan`, when the cache
    /// holds it.
    pub fn get_subscriber_badge(&self, badge: &TwitchBadge, chan: &String) -> (r: Option<Vec<u8>>)
        ensures
            opt_bytes(r) == cached_sub_badge(self@, chan@, badge.set@, badge.version@),
    {
        let k = sub_badge_key_of(chan, badge);
        match self.sub_badge_url_cache.get(&k) {
            Some(url) => self.url_bytes(url),
            None => None,
        }
    }

    /// The image of an emote, when the cache holds it.
    pub fn get_emote(&self, emote_id: u64) -> (r: Option<Vec<u8>>)
        ensures
            opt_bytes(r) == (if self@.emotes.contains_key(emote_id) {
                Some(self@.emotes[emote_id])
            } else {
                None
            }),
    {
        match self.emote_cache.get(&emote_id) {
            Some(b) => Some(copy_bytes(b)),
            None => None,
        }
    }

    /// The emotes of an emote set, when the cache holds them.
    pub fn get_emote_set(&self, emote_set: u64) -> (r: Option<Vec<TwitchEmote>>)
        ensures
            opt_emotes(r) == (if self@.emote_sets.contains_key(emote_set) {
                Some(self@.emote_sets[emote_set])
            } else {
                None
            }),
    {
        match self.emote_set_cache.get(&emote_set) {
            Some(l) => Some(copy_emotes(l)),
            None => None,
        }
    }

    /// The first step for a request that missed the cache: a reply from the
    /// store when it holds the answer by now, else the fetch it needs.
    pub fn begin_request(&self, request: &ImageRequest) -> (r: WorkerStep)
        ensures
            r@ == start_spec(self@, request@),
    {
        match request {
            ImageRequest::Badge(b) => {
                let k = badge_key_of(b);
                match self.badge_url_cache.get(&k) {
                    None => WorkerStep::Fetch(FetchRequest::GlobalBadges),
                    Some(url) => match self.url_bytes(url) {
                        Some(bytes) => WorkerStep::ReplyBytes(bytes),
                        None => WorkerStep::Fetch(FetchRequest::Url(copy_text(url))),
                    },
                }
            },
            ImageRequest::SubBadge(chan, b) => {
                let k = sub_badge_key_of(chan, b);
                match self.sub_badge_url_cache.get(&k) {
                    None => WorkerStep::Fetch(FetchRequest::SubscriberBadges(copy_text(chan))),
                    Some(url) => match self.url_bytes(url) {
                        Some(bytes) => WorkerStep::ReplyBytes(bytes),
                        None => WorkerStep::Fetch(FetchRequest::Url(copy_text(url))),
                    },
                }
            },
            ImageRequest::Emote(id) => match self.get_emote(*id) {
                Some(bytes) => WorkerStep::ReplyBytes(bytes),
                None => WorkerStep::Fetch(FetchRequest::EmoteImage(*id)),
            },
            ImageRequest::EmoteSet(id) => match self.get_emote_set(*id) {
                Some(l) => WorkerStep::ReplyEmotes(l),
                None => WorkerStep::Fetch(FetchRequest::EmoteSets(*id)),
            },
        }
    }

    /// Adds a global badge listing to the badge index.
    fn store_badges(&mut self, l: &Vec<BadgeImage>)
        ensures
            final(self)@ == (StoreView {
                badge_urls: add_badges(old(self)@.badge_urls, badge_images_view(l@)),
                ..old(self)@
            }),
    {
        let ghost start = self.badge_url_cache@;
        let n = l.len();
        let mut i: usize = 0;
        assert(badge_images_view(l@).subrange(0, 0) =~= Seq::empty());
        while i < n
            invariant
                n == l@.len(),
                i <= n,
                start == old(self).badge_url_cache@,
                self.badge_url_cache@ == add_badges(
                    start,
                    badge_images_view(l@).subrange(0, i as int),
                ),
                self.sub_badge_url_cache == old(self).sub_badge_url_cache,
                self.url_cache == old(self).url_cache,
                self.emote_cache == old(self).emote_cache,
                self.emote_set_cache == old(self).emote_set_cache,
            decreases n - i,
        {
            let b = &l[i];
            let k = vec![copy_text(&b.set), copy_text(&b.version)];
            self.badge_url_cache.insert(k, copy_text(&b.image_url));
            let ghost v = badge_images_view(l@);
            assert(v.subrange(0, i + 1).drop_last() =~= v.subrange(0, i as int));
            assert(key_view(k@) =~= badge_key(b.set@, b.version@));
            i = i + 1;
        }
        assert(badge_images_view(l@).subrange(0, n as int) =~= badge_images_view(l@));
    }

    /// Adds the subscriber versions of a channel's badge listing to the
    /// subscriber badge index.
    fn store_sub_badges(&mut self, chan: &String, l: &Vec<BadgeImage>)
        ensures
            final(self)@ == (StoreView {
                sub_badge_urls: add_sub_badges(
                    old(self)@.sub_badge_urls,
                    chan@,
                    badge_images_view(l@),
                ),
                ..old(self)@
            }),
    {
        let ghost start = self.sub_badge_url_cache@;
        let subscriber = String::from_str("subscriber");
        proof {
            reveal_strlit("subscriber");
        }
        assert(subscriber@ == subscriber_set());
        let n = l.len();
        let mut i: usize = 0;
        assert(badge_images_view(l@).subrange(0, 0) =~= Seq::empty());
        while i < n
            invariant
                n == l@.len(),
                i <= n,
                subscriber@ == subscriber_set(),
                start == old(self).sub_badge_url_cache@,
                self.sub_badge_url_cache@ == add_sub_badges(
                    start,
                    chan@,
                    badge_images_view(l@).subrange(0, i as int),
                ),
                self.badge_url_cache == old(self).badge_url_cache,
                self.url_cache == old(self).url_cache,
                self.emote_cache == old(self).emote_cache,
                self.emote_set_cache == old(self).emote_set_cache,
            decreases n - i,
        {
            let b = &l[i];
            let ghost v = badge_images_view(l@);
            assert(v.subrange(0, i + 1).drop_last() =~= v.subrange(0, i as int));
            if b.set == subscriber {
                let k = vec![copy_text(chan), copy_text(&subscriber), copy_text(&b.version)];
                self.sub_badge_url_cache.insert(k, copy_text(&b.image_url));
                assert(key_view(k@) =~= sub_badge_key(chan@, subscriber_set(), b.version@));
            }
            i = i + 1;
        }
        assert(badge_images_view(l@).subrange(0, n as int) =~= badge_images_view(l@));
    }

    /// Takes in the result of the fetch that the last step asked for, and
    /// gives the next step for the request.
    pub fn complete_fetch(
        &mut self,
        request: &ImageRequest,
        fetch: &FetchRequest,
        result: FetchResult,
    ) -> (r: WorkerStep)
        ensures
            (final(self)@, r@) == resume_spec(old(self)@, request@, fetch@, result@),
    {
        match result {
            FetchResult::Failed => WorkerStep::NoReply,
            FetchResult::Bytes(b) => match fetch {
                FetchRequest::Url(u) => {
                    let reply = copy_bytes(&b);
                    self.url_cache.insert(copy_text(u), b);
                    assert(self@.urls =~= old(self)@.urls.insert(u@, reply@));
                    WorkerStep::ReplyBytes(reply)
                },
                FetchRequest::EmoteImage(id) => {
                    let reply = copy_bytes(&b);
                    self.emote_cache.insert(*id, b);
                    assert(self@.emotes =~= old(self)@.emotes.insert(*id, reply@));
                    WorkerStep::ReplyBytes(reply)
                },
                _ => WorkerStep::NoReply,
            },
            FetchResult::BadgeSets(l) => match fetch {
                FetchRequest::GlobalBadges => {
                    self.store_badges(&l);
                    match request {
                        ImageRequest::Badge(b) => {
                            let k = badge_key_of(b);
                            match self.badge_url_cache.get(&k) {
                                Some(url) => WorkerStep::Fetch(FetchRequest::Url(copy_text(url))),
                                None => WorkerStep::NoReply,
                            }
                        },
                        _ => WorkerStep::NoReply,
                    }
                },
                FetchRequest::SubscriberBadges(chan) => {
                    self.store_sub_badges(chan, &l);
                    match request {
                        ImageRequest::SubBadge(c, b) => {
                            let k = sub_badge_key_of(c, b);
                            match self.sub_badge_url_cache.get(&k) {
                                Some(url) => WorkerStep::Fetch(FetchRequest::Url(copy_text(url))),
                                None => WorkerStep::NoReply,
                            }
                        },
                        _ => WorkerStep::NoReply,
                    }
                },
                _ => WorkerStep::NoReply,
            },
            FetchResult::Emotes(l) => match fetch {
                FetchRequest::EmoteSets(id) => {
                    let reply = copy_emotes(&l);
                    self.emote_set_cache.insert(*id, l);
                    assert(self@.emote_sets =~= old(self)@.emote_sets.insert(
                        *id,
                        emotes_view(reply@),
                    ));
                    WorkerStep::ReplyEmotes(reply)
                },
                _ => WorkerStep::NoReply,
            },
        }
    }
}

/// A listing entry for a badge, with none after it for that badge, gives the
/// URL that the index holds for it.
pub proof fn lemma_add_badges_last(
    m: Map<Seq<Seq<char>>, Seq<char>>,
    l: Seq<(Seq<char>, Seq<char>, Seq<char>)>,
    i: int,
)
    requires
        0 <= i < l.len(),
        forall|j: int| i < j < l.len() ==> badge_key(l[j].0, l[j].1) != badge_key(l[i].0, l[i].1),
    ensures
        add_badges(m, l).contains_key(badge_key(l[i].0, l[i].1)),
        add_badges(m, l)[badge_key(l[i].0, l[i].1)] == l[i].2,
    decreases l.len(),
{
    if i < l.len() - 1 {
        let d = l.drop_last();
        assert forall|j: int| i < j < d.len() implies badge_key(d[j].0, d[j].1) != badge_key(
            d[i].0,
            d[i].1,
        ) by {
            assert(d[j] == l[j]);
        }
        lemma_add_badges_last(m, d, i);
    }
}

/// Once an emote has been fetched, the cache holds it: the next lookup and
/// the next request for it are answered with those bytes, with no fetch.
pub proof fn lemma_emote_cache_hit(s: StoreView, id: u64, bytes: Seq<u8>)
    requires
        !s.emotes.contains_key(id),
    ensures
        start_spec(s, RequestView::Emote(id)) == StepView::Fetch(FetchView::EmoteImage(id)),
        resume_spec(s, RequestView::Emote(id), FetchView::EmoteImage(id), ResultView::Bytes(bytes)).1
            == StepView::ReplyBytes(bytes),
        ({
            let s2 = resume_spec(
                s,
                RequestView::Emote(id),
                FetchView::EmoteImage(id),
                ResultView::Bytes(bytes),
            ).0;
            &&& s2.emotes.contains_key(id)
            &&& s2.emotes[id] == bytes
            &&& start_spec(s2, RequestView::Emote(id)) == StepView::ReplyBytes(bytes)
        }),
{
}

/// From an empty store, a badge takes one fetch of the global badge listing,
/// then one fetch of the badge's URL, whose bytes answer the request and
/// stay in the store.
pub proof fn lemma_bulk_badge_resolution(
    set: Seq<char>,
    version: Seq<char>,
    listing: Seq<(Seq<char>, Seq<char>, Seq<char>)>,
    i: int,
    bytes: Seq<u8>,
)
    requires
        0 <= i < listing.len(),
        listing[i].0 == set,
        listing[i].1 == version,
        forall|j: int|
            i < j < listing.len() ==> badge_key(listing[j].0, listing[j].1) != badge_key(
                set,
                version,
            ),
    ensures
        start_spec(empty_store(), RequestView::Badge(set, version)) == StepView::Fetch(
            FetchView::GlobalBadges,
        ),
        ({
            let r = RequestView::Badge(set, version);
            let (s2, step2) = resume_spec(
                empty_store(),
                r,
                FetchView::GlobalBadges,
                ResultView::BadgeSets(listing),
            );
            let (s3, step3) = resume_spec(
                s2,
                r,
                FetchView::Url(listing[i].2),
                ResultView::Bytes(bytes),
            );
            &&& step2 == StepView::Fetch(FetchView::Url(listing[i].2))
            &&& step3 == StepView::ReplyBytes(bytes)
            &&& cached_badge(s3, set, version) == Some(bytes)
        }),
{
    lemma_add_badges_last(Map::empty(), listing, i);
}

/// A lookup changes nothing, so every caller that misses on a badge sends a
/// request of its own, and each such request starts with a fetch: misses on
/// the same badge are not merged.
pub proof fn lemma_duplicate_miss(s: StoreView, set: Seq<char>, version: Seq<char>)
    requires
        cached_badge(s, set, version) is None,
    ensures
        start_spec(s, RequestView::Badge(set, version)) is Fetch,
{
}

/// A failed fetch leaves the store as it was and the request unanswered.
pub proof fn lemma_failure_is_silent(s: StoreView, r: RequestView, f: FetchView)
    ensures
        resume_spec(s, r, f, ResultView::Failed) == (s, StepView::NoReply),
{
}

/// A badge that the fetched listing does not name, and that the index did not
/// hold before, is not answered either; the listing still goes into the index.
pub proof fn lemma_unlisted_badge_is_silent(
    s: StoreView,
    set: Seq<char>,
    version: Seq<char>,
    listing: Seq<(Seq<char>, Seq<char>, Seq<char>)>,
)
    requires
        !add_badges(s.badge_urls, listing).contains_key(badge_key(set, version)),
    ensures
        resume_spec(
            s,
            RequestView::Badge(set, version),
            FetchView::GlobalBadges,
            ResultView::BadgeSets(listing),
        ) == (StoreView { badge_urls: add_badges(s.badge_urls, listing), ..s }, StepView::NoReply),
{
}

} // verus!
