//! The nine platforms, what each accepts in a post, and what a provider can do
//! on one of them.
use vstd::prelude::*;
use crate::text;
use crate::text::{after_last, text_eq, to_lower};

verus! {

/// The nine platforms. Declaration order is the order in which pickers and the
/// limit table show them.
#[derive(Debug, Clone, Copy, PartialEq, Eq, Structural, Hash, PartialOrd, Ord)]
pub enum Platform {
    X,
    Instagram,
    Tiktok,
    Youtube,
    Linkedin,
    Reddit,
    Facebook,
    Bluesky,
    Threads,
}

impl Platform {
    pub const ALL: [Platform; 9] = [
        Platform::X,
        Platform::Instagram,
        Platform::Tiktok,
        Platform::Youtube,
        Platform::Linkedin,
        Platform::Reddit,
        Platform::Facebook,
        Platform::Bluesky,
        Platform::Threads,
    ];

    /// The wire name.
    pub open spec fn name(self) -> Seq<char> {
        match self {
            Self::X => "x"@,
            Self::Instagram => "instagram"@,
            Self::Tiktok => "tiktok"@,
            Self::Youtube => "youtube"@,
            Self::Linkedin => "linkedin"@,
            Self::Reddit => "reddit"@,
            Self::Facebook => "facebook"@,
            Self::Bluesky => "bluesky"@,
            Self::Threads => "threads"@,
        }
    }

    /// The name people read.
    pub open spec fn label_text(self) -> Seq<char> {
        match self {
            Self::X => "X"@,
            Self::Instagram => "Instagram"@,
            Self::Tiktok => "TikTok"@,
            Self::Youtube => "YouTube"@,
            Self::Linkedin => "LinkedIn"@,
            Self::Reddit => "Reddit"@,
            Self::Facebook => "Facebook"@,
            Self::Bluesky => "Bluesky"@,
            Self::Threads => "Threads"@,
        }
    }

    /// The broker's toolkit for this platform; it still calls X "twitter".
    pub open spec fn toolkit(self) -> Seq<char> {
        if self == Self::X {
            "twitter"@
        } else {
            self.name()
        }
    }

    /// The position in declaration order.
    pub open spec fn rank(self) -> int {
        match self {
            Self::X => 0,
            Self::Instagram => 1,
            Self::Tiktok => 2,
            Self::Youtube => 3,
            Self::Linkedin => 4,
            Self::Reddit => 5,
            Self::Facebook => 6,
            Self::Bluesky => 7,
            Self::Threads => 8,
        }
    }

    pub fn as_str(self) -> (r: &'static str)
        ensures
            r@ == self.name(),
    {
        match self {
            Self::X => "x",
            Self::Instagram => "instagram",
            Self::Tiktok => "tiktok",
            Self::Youtube => "youtube",
            Self::Linkedin => "linkedin",
            Self::Reddit => "reddit",
            Self::Facebook => "facebook",
            Self::Bluesky => "bluesky",
            Self::Threads => "threads",
        }
    }

    pub fn label(self) -> (r: &'static str)
        ensures
            r@ == self.label_text(),
    {
        match self {
            Self::X => "X",
            Self::Instagram => "Instagram",
            Self::Tiktok => "TikTok",
            Self::Youtube => "YouTube",
            Self::Linkedin => "LinkedIn",
            Self::Reddit => "Reddit",
            Self::Facebook => "Facebook",
            Self::Bluesky => "Bluesky",
            Self::Threads => "Threads",
        }
    }

    pub fn composio_toolkit(self) -> (r: &'static str)
        ensures
            r@ == self.toolkit(),
    {
        match self {
            Self::X => "twitter",
            other => other.as_str(),
        }
    }

    /// The position in declaration order.
    pub fn order(self) -> (r: usize)
        ensures
            r == self.rank(),
            Platform::ALL@[r as int] == self,
    {
        match self {
            Self::X => 0,
            Self::Instagram => 1,
            Self::Tiktok => 2,
            Self::Youtube => 3,
            Self::Linkedin => 4,
            Self::Reddit => 5,
            Self::Facebook => 6,
            Self::Bluesky => 7,
            Self::Threads => 8,
        }
    }

    /// Strict parse: the platform with exactly this wire name, if there is one.
    pub fn parse(s: &str) -> (r: Option<Self>)
        ensures
            r == platform_named(s@),
    {
        if text_eq(s, "x") {
            Some(Self::X)
        } else if text_eq(s, "instagram") {
            Some(Self::Instagram)
        } else if text_eq(s, "tiktok") {
            Some(Self::Tiktok)
        } else if text_eq(s, "youtube") {
            Some(Self::Youtube)
        } else if text_eq(s, "linkedin") {
            Some(Self::Linkedin)
        } else if text_eq(s, "reddit") {
            Some(Self::Reddit)
        } else if text_eq(s, "facebook") {
            Some(Self::Facebook)
        } else if text_eq(s, "bluesky") {
            Some(Self::Bluesky)
        } else if text_eq(s, "threads") {
            Some(Self::Threads)
        } else {
            None
        }
    }

    /// [`Platform::parse`], with a message that names what was not recognised.
    pub fn from_name(s: &str) -> (r: Result<Self, String>)
        ensures
            match r {
                Ok(p) => platform_named(s@) == Some(p),
                Err(e) => platform_named(s@) is None && e@ == "unknown platform \""@ + s@ + "\""@,
            },
    {
        match Self::parse(s) {
            Some(p) => Ok(p),
            None => {
                let mut e: String = "unknown platform \"".to_owned();
                e.append(s);
                e.append("\"");
                Err(e)
            },
        }
    }
}

/// The platform with this wire name.
pub open spec fn platform_named(s: Seq<char>) -> Option<Platform> {
    if s == "x"@ {
        Some(Platform::X)
    } else if s == "instagram"@ {
        Some(Platform::Instagram)
    } else if s == "tiktok"@ {
        Some(Platform::Tiktok)
    } else if s == "youtube"@ {
        Some(Platform::Youtube)
    } else if s == "linkedin"@ {
        Some(Platform::Linkedin)
    } else if s == "reddit"@ {
        Some(Platform::Reddit)
    } else if s == "facebook"@ {
        Some(Platform::Facebook)
    } else if s == "bluesky"@ {
        Some(Platform::Bluesky)
    } else if s == "threads"@ {
        Some(Platform::Threads)
    } else {
        None
    }
}

proof fn reveal_platform_names()
    ensures
        "x"@ =~= seq!['x'],
        "instagram"@ =~= seq!['i', 'n', 's', 't', 'a', 'g', 'r', 'a', 'm'],
        "tiktok"@ =~= seq!['t', 'i', 'k', 't', 'o', 'k'],
        "youtube"@ =~= seq!['y', 'o', 'u', 't', 'u', 'b', 'e'],
        "linkedin"@ =~= seq!['l', 'i', 'n', 'k', 'e', 'd', 'i', 'n'],
        "reddit"@ =~= seq!['r', 'e', 'd', 'd', 'i', 't'],
        "facebook"@ =~= seq!['f', 'a', 'c', 'e', 'b', 'o', 'o', 'k'],
        "bluesky"@ =~= seq!['b', 'l', 'u', 'e', 's', 'k', 'y'],
        "threads"@ =~= seq!['t', 'h', 'r', 'e', 'a', 'd', 's'],
{
    reveal_strlit("x");
    reveal_strlit("instagram");
    reveal_strlit("tiktok");
    reveal_strlit("youtube");
    reveal_strlit("linkedin");
    reveal_strlit("reddit");
    reveal_strlit("facebook");
    reveal_strlit("bluesky");
    reveal_strlit("threads");
}

/// A platform's wire name parses back to it, and only that name does.
pub proof fn platform_round_trip(p: Platform, s: Seq<char>)
    ensures
        platform_named(p.name()) == Some(p),
        platform_named(s) == Some(p) <==> s == p.name(),
{
    reveal_platform_names();
    let n = p.name();
    assert(n[0] == 'x' || n[0] == 'i' || n[0] == 't' || n[0] == 'y' || n[0] == 'l' || n[0] == 'r'
        || n[0] == 'f' || n[0] == 'b');
    assert("tiktok"@.len() == 6 && "threads"@.len() == 7);
}

/// No two platforms share a wire name.
pub proof fn platform_names_are_distinct(p: Platform, q: Platform)
    requires
        p.name() == q.name(),
    ensures
        p == q,
{
    platform_round_trip(p, p.name());
    platform_round_trip(q, q.name());
}

/// How a post of several segments goes out on a platform.
#[derive(Debug, Clone, Copy, PartialEq, Eq, Structural)]
pub enum SegmentStyle {
    /// Each segment replies to the one before it.
    Thread,
    /// Segments are slides of one post.
    Carousel,
    /// One post: further segments are dropped.
    Single,
}

impl SegmentStyle {
    pub open spec fn noun_text(self) -> Seq<char> {
        match self {
            Self::Carousel => "slides"@,
            _ => "posts"@,
        }
    }

    pub open spec fn item_noun_text(self) -> Seq<char> {
        match self {
            Self::Carousel => "Slide"@,
            _ => "Post"@,
        }
    }

    pub fn noun(self) -> (r: &'static str)
        ensures
            r@ == self.noun_text(),
    {
        match self {
            Self::Thread => "posts",
            Self::Carousel => "slides",
            Self::Single => "posts",
        }
    }

    pub fn item_noun(self) -> (r: &'static str)
        ensures
            r@ == self.item_noun_text(),
    {
        match self {
            Self::Carousel => "Slide",
            _ => "Post",
        }
    }
}

/// What one platform accepts in a post: public figures, used to warn before a
/// publish fails.
#[derive(Debug, Clone, Copy, PartialEq, Eq)]
pub struct PlatformLimits {
    pub max_chars: usize,
    pub allowed_mime_prefixes: &'static [&'static str],
    pub max_media: usize,
    pub segment_style: SegmentStyle,
    pub max_segments: usize,
}

/// The limits as plain mathematical values.
#[verifier::ext_equal]
pub struct LimitsView {
    pub max_chars: nat,
    pub prefixes: Seq<Seq<char>>,
    pub max_media: nat,
    pub style: SegmentStyle,
    pub max_segments: nat,
}

impl View for PlatformLimits {
    type V = LimitsView;

    open spec fn view(&self) -> LimitsView {
        LimitsView {
            max_chars: self.max_chars as nat,
            prefixes: self.allowed_mime_prefixes@.map_values(|p: &'static str| p@),
            max_media: self.max_media as nat,
            style: self.segment_style,
            max_segments: self.max_segments as nat,
        }
    }
}

pub open spec fn image_and_video() -> Seq<Seq<char>> {
    seq!["image/"@, "video/"@]
}

pub open spec fn video_only() -> Seq<Seq<char>> {
    seq!["video/"@]
}

pub open spec fn image_only() -> Seq<Seq<char>> {
    seq!["image/"@]
}

/// What an unrecognised platform gets.
pub open spec fn default_limits_view() -> LimitsView {
    LimitsView {
        max_chars: 5000,
        prefixes: image_and_video(),
        max_media: 10,
        style: SegmentStyle::Single,
        max_segments: 1,
    }
}

/// The limit table.
pub open spec fn limits_view(p: Platform) -> LimitsView {
    match p {
        Platform::X => LimitsView {
            max_chars: 280,
            prefixes: image_and_video(),
            max_media: 4,
            style: SegmentStyle::Thread,
            max_segments: 25,
        },
        Platform::Instagram => LimitsView {
            max_chars: 2200,
            prefixes: image_and_video(),
            max_media: 10,
            style: SegmentStyle::Carousel,
            max_segments: 10,
        },
        Platform::Tiktok => LimitsView {
            max_chars: 2200,
            prefixes: video_only(),
            max_media: 1,
            style: SegmentStyle::Single,
            max_segments: 1,
        },
        Platform::Youtube => LimitsView {
            max_chars: 5000,
            prefixes: video_only(),
            max_media: 1,
            style: SegmentStyle::Single,
            max_segments: 1,
        },
        Platform::Linkedin => LimitsView {
            max_chars: 3000,
            prefixes: image_and_video(),
            max_media: 9,
            style: SegmentStyle::Carousel,
            max_segments: 20,
        },
        Platform::Reddit => LimitsView {
            max_chars: 40000,
            prefixes: image_and_video(),
            max_media: 1,
            style: SegmentStyle::Single,
            max_segments: 1,
        },
        Platform::Facebook => LimitsView {
            max_chars: 63206,
            prefixes: image_and_video(),
            max_media: 10,
            style: SegmentStyle::Single,
            max_segments: 1,
        },
        Platform::Bluesky => LimitsView {
            max_chars: 300,
            prefixes: image_only(),
            max_media: 4,
            style: SegmentStyle::Thread,
            max_segments: 25,
        },
        Platform::Threads => LimitsView {
            max_chars: 500,
            prefixes: image_and_video(),
            max_media: 10,
            style: SegmentStyle::Thread,
            max_segments: 25,
        },
    }
}

pub open spec fn limits_view_named(s: Seq<char>) -> LimitsView {
    match platform_named(s) {
        Some(p) => limits_view(p),
        None => default_limits_view(),
    }
}

pub fn default_platform_limits() -> (r: PlatformLimits)
    ensures
        r@ == default_limits_view(),
{
    let r = PlatformLimits {
        max_chars: 5_000,
        allowed_mime_prefixes: &["image/", "video/"],
        max_media: 10,
        segment_style: SegmentStyle::Single,
        max_segments: 1,
    };
    assert(r@ =~= default_limits_view());
    r
}

pub fn limits_for(platform: Platform) -> (r: PlatformLimits)
    ensures
        r@ == limits_view(platform),
{
    let r: PlatformLimits = match platform {
        Platform::X => PlatformLimits {
            max_chars: 280,
            allowed_mime_prefixes: &["image/", "video/"],
            max_media: 4,
            segment_style: SegmentStyle::Thread,
            max_segments: 25,
        },
        Platform::Instagram => PlatformLimits {
            max_chars: 2_200,
            allowed_mime_prefixes: &["image/", "video/"],
            max_media: 10,
            segment_style: SegmentStyle::Carousel,
            max_segments: 10,
        },
        Platform::Tiktok => PlatformLimits {
            max_chars: 2_200,
            allowed_mime_prefixes: &["video/"],
            max_media: 1,
            segment_style: SegmentStyle::Single,
            max_segments: 1,
        },
        Platform::Youtube => PlatformLimits {
            max_chars: 5_000,
            allowed_mime_prefixes: &["video/"],
            max_media: 1,
            segment_style: SegmentStyle::Single,
            max_segments: 1,
        },
        Platform::Linkedin => PlatformLimits {
            max_chars: 3_000,
            allowed_mime_prefixes: &["image/", "video/"],
            max_media: 9,
            segment_style: SegmentStyle::Carousel,
            max_segments: 20,
        },
        Platform::Reddit => PlatformLimits {
            max_chars: 40_000,
            allowed_mime_prefixes: &["image/", "video/"],
            max_media: 1,
            segment_style: SegmentStyle::Single,
            max_segments: 1,
        },
        Platform::Facebook => PlatformLimits {
            max_chars: 63_206,
            allowed_mime_prefixes: &["image/", "video/"],
            max_media: 10,
            segment_style: SegmentStyle::Single,
            max_segments: 1,
        },
        Platform::Bluesky => PlatformLimits {
            max_chars: 300,
            allowed_mime_prefixes: &["image/"],
            max_media: 4,
            segment_style: SegmentStyle::Thread,
            max_segments: 25,
        },
        Platform::Threads => PlatformLimits {
            max_chars: 500,
            allowed_mime_prefixes: &["image/", "video/"],
            max_media: 10,
            segment_style: SegmentStyle::Thread,
            max_segments: 25,
        },
    };
    assert(r@ =~~= limits_view(platform));
    r
}

/// Limits for a platform given by name; an unknown name gets the default.
pub fn limits_for_str(platform: &str) -> (r: PlatformLimits)
    ensures
        r@ == limits_view_named(platform@),
{
    match Platform::parse(platform) {
        Some(p) => limits_for(p),
        None => default_platform_limits(),
    }
}

pub open spec fn label_named(s: Seq<char>) -> Seq<char> {
    match platform_named(s) {
        Some(p) => p.label_text(),
        None => s,
    }
}

/// Label for a platform given by name; an unknown name is its own label.
pub fn label_for_str(platform: &str) -> (r: String)
    ensures
        r@ == label_named(platform@),
{
    match Platform::parse(platform) {
        Some(p) => p.label().to_owned(),
        None => platform.to_owned(),
    }
}

/// The mime type that goes with a lower-case file extension.
pub open spec fn extension_mime(ext: Seq<char>) -> Seq<char> {
    if ext == "png"@ {
        "image/png"@
    } else if ext == "jpg"@ || ext == "jpeg"@ {
        "image/jpeg"@
    } else if ext == "gif"@ {
        "image/gif"@
    } else if ext == "webp"@ {
        "image/webp"@
    } else if ext == "avif"@ {
        "image/avif"@
    } else if ext == "heic"@ {
        "image/heic"@
    } else if ext == "mp4"@ {
        "video/mp4"@
    } else if ext == "mov"@ {
        "video/quicktime"@
    } else if ext == "webm"@ {
        "video/webm"@
    } else if ext == "m4v"@ {
        "video/x-m4v"@
    } else {
        ""@
    }
}

/// The mime type read off a file name: by what follows its last dot, in any case.
pub open spec fn mime_of_name(name: Seq<char>) -> Seq<char> {
    match text::after_last_of(name, '.') {
        Some(ext) => extension_mime(text::lower_of(ext)),
        None => ""@,
    }
}

/// An unknown extension, or none, gives the empty text.
pub fn mime_for_extension(name: &str) -> (r: &'static str)
    ensures
        r@ == mime_of_name(name@),
{
    let ext: String = match after_last(name, '.') {
        Some(e) => to_lower(e),
        None => return "",
    };
    let e: &str = ext.as_str();
    if text_eq(e, "png") {
        "image/png"
    } else if text_eq(e, "jpg") || text_eq(e, "jpeg") {
        "image/jpeg"
    } else if text_eq(e, "gif") {
        "image/gif"
    } else if text_eq(e, "webp") {
        "image/webp"
    } else if text_eq(e, "avif") {
        "image/avif"
    } else if text_eq(e, "heic") {
        "image/heic"
    } else if text_eq(e, "mp4") {
        "video/mp4"
    } else if text_eq(e, "mov") {
        "video/quicktime"
    } else if text_eq(e, "webm") {
        "video/webm"
    } else if text_eq(e, "m4v") {
        "video/x-m4v"
    } else {
        ""
    }
}

/// What a provider can do for one platform. `schedule` is false for every
/// provider: scheduling is always done here.
#[derive(Debug, Clone, Copy, PartialEq, Eq, Structural)]
pub struct PlatformCapabilities {
    pub publish: bool,
    pub read_comments: bool,
    pub read_dms: bool,
    pub send_dm: bool,
    pub read_engagement: bool,
    pub schedule: bool,
}

impl PlatformCapabilities {
    pub open spec fn none() -> Self {
        PlatformCapabilities {
            publish: false,
            read_comments: false,
            read_dms: false,
            send_dm: false,
            read_engagement: false,
            schedule: false,
        }
    }

    /// All false: what an unreachable or unsuitable provider offers.
    pub fn empty() -> (r: Self)
        ensures
            r == Self::none(),
    {
        Self {
            publish: false,
            read_comments: false,
            read_dms: false,
            send_dm: false,
            read_engagement: false,
            schedule: false,
        }
    }
}

impl Default for PlatformCapabilities {
    fn default() -> (r: Self)
        ensures
            r == Self::none(),
    {
        Self::empty()
    }
}

// ── What the tables promise ────────────────────────────────────────────────────

/// Every platform takes text and attachments; a single-post platform takes one
/// segment, every other more than one; a thread's posts are at most 25.
pub proof fn every_platform_takes_something(p: Platform)
    ensures
        limits_view(p).max_chars >= 280,
        limits_view(p).max_media >= 1,
        limits_view(p).prefixes.len() >= 1,
        limits_view(p).style == SegmentStyle::Single <==> limits_view(p).max_segments == 1,
        limits_view(p).style == SegmentStyle::Thread ==> limits_view(p).max_segments == 25,
        limits_view(p).style == SegmentStyle::Thread <==> p == Platform::X || p == Platform::Bluesky
            || p == Platform::Threads,
        limits_view(p).style == SegmentStyle::Carousel <==> p == Platform::Instagram || p
            == Platform::Linkedin,
{
}

/// Which attachments a platform takes: videos everywhere but on Bluesky, pictures
/// everywhere but on TikTok and YouTube, and nothing else anywhere.
pub proof fn every_platform_takes_its_kinds(p: Platform, mime: Seq<char>)
    ensures
        "image/"@.is_prefix_of(mime) ==> ((exists|j: int|
            0 <= j < limits_view(p).prefixes.len() && (
            #[trigger] limits_view(p).prefixes[j]).is_prefix_of(mime)) <==> p != Platform::Tiktok
            && p != Platform::Youtube),
        "video/"@.is_prefix_of(mime) ==> ((exists|j: int|
            0 <= j < limits_view(p).prefixes.len() && (
            #[trigger] limits_view(p).prefixes[j]).is_prefix_of(mime)) <==> p
            != Platform::Bluesky),
        !"image/"@.is_prefix_of(mime) && !"video/"@.is_prefix_of(mime) ==> forall|j: int|
            0 <= j < limits_view(p).prefixes.len() ==> !(
            #[trigger] limits_view(p).prefixes[j]).is_prefix_of(mime),
{
    reveal_strlit("image/");
    reveal_strlit("video/");
    if "image/"@.is_prefix_of(mime) {
        assert(mime[0] == "image/"@[0]);
    }
    if "video/"@.is_prefix_of(mime) {
        assert(mime[0] == "video/"@[0]);
    }
    let s = limits_view(p).prefixes;
    assert(s[0] == "image/"@ || s[0] == "video/"@);
    if s.len() == 2 {
        assert(s[0] == "image/"@ && s[1] == "video/"@);
    }
    if "image/"@.is_prefix_of(mime) && p != Platform::Tiktok && p != Platform::Youtube {
        assert(s[0].is_prefix_of(mime));
    }
    if "video/"@.is_prefix_of(mime) && p != Platform::Bluesky {
        assert(s[s.len() - 1].is_prefix_of(mime));
    }
}

/// How many characters and attachments a platform takes in one segment, and how many
/// slides a carousel has.
pub proof fn every_platform_has_its_figures(p: Platform)
    ensures
        limits_view(p).max_chars == (match p {
            Platform::X => 280nat,
            Platform::Bluesky => 300,
            Platform::Threads => 500,
            Platform::Instagram | Platform::Tiktok => 2_200,
            Platform::Linkedin => 3_000,
            Platform::Youtube => 5_000,
            Platform::Reddit => 40_000,
            Platform::Facebook => 63_206,
        }),
        limits_view(p).max_media == (match p {
            Platform::Tiktok | Platform::Youtube | Platform::Reddit => 1nat,
            Platform::X | Platform::Bluesky => 4,
            Platform::Linkedin => 9,
            Platform::Instagram | Platform::Facebook | Platform::Threads => 10,
        }),
        p == Platform::Instagram ==> limits_view(p).max_segments == 10,
        p == Platform::Linkedin ==> limits_view(p).max_segments == 20,
{
}

/// A platform's limits are found under its wire name; a name that is none of them gets
/// limits of its own, the same for all.
pub proof fn limits_are_found_by_name(p: Platform, s: Seq<char>, t: Seq<char>)
    ensures
        limits_view_named(p.name()) == limits_view(p),
        label_named(p.name()) == p.label_text(),
        (forall|q: Platform| s != #[trigger] q.name()) && (forall|q: Platform|
            t != #[trigger] q.name()) ==> {
            &&& limits_view_named(s) == limits_view_named(t)
            &&& limits_view_named(s).max_chars == 5_000
            &&& limits_view_named(s).max_media == 10
            &&& limits_view_named(s).max_segments == 1
            &&& limits_view_named(s).style == SegmentStyle::Single
            &&& limits_view_named(s).prefixes == seq!["image/"@, "video/"@]
            &&& label_named(s) == s
        },
{
    platform_round_trip(p, p.name());
    if forall|q: Platform| s != #[trigger] q.name() {
        match platform_named(s) {
            Some(q) => {
                platform_round_trip(q, s);
            },
            None => {},
        }
    }
    if forall|q: Platform| t != #[trigger] q.name() {
        match platform_named(t) {
            Some(q) => {
                platform_round_trip(q, t);
            },
            None => {},
        }
    }
}

/// What people read is the wire name in other letters, and starts with a capital. The
/// broker has the wire names too, but for X.
pub proof fn a_label_spells_the_name(p: Platform)
    ensures
        text::lower_of(p.label_text()) == p.name(),
        'A' <= p.label_text()[0] <= 'Z',
        p != Platform::X ==> p.toolkit() == p.name(),
        p == Platform::X ==> p.toolkit() == "twitter"@,
{
    reveal_platform_names();
    reveal_strlit("X");
    reveal_strlit("Instagram");
    reveal_strlit("TikTok");
    reveal_strlit("YouTube");
    reveal_strlit("LinkedIn");
    reveal_strlit("Reddit");
    reveal_strlit("Facebook");
    reveal_strlit("Bluesky");
    reveal_strlit("Threads");
    assert(text::lower_of(p.label_text()) =~= p.name());
}

/// Only what follows the last dot tells a file's type, and its case does not matter. A
/// name without a dot tells none.
pub proof fn the_extension_tells_the_type(
    stem: Seq<char>,
    other: Seq<char>,
    ext: Seq<char>,
    same: Seq<char>,
)
    requires
        !ext.contains('.'),
        !same.contains('.'),
        text::lower_of(ext) == text::lower_of(same),
    ensures
        mime_of_name(stem + seq!['.'] + ext) == mime_of_name(other + seq!['.'] + same),
        mime_of_name(stem + seq!['.'] + ext) == extension_mime(text::lower_of(ext)),
        mime_of_name(ext).len() == 0,
{
    let a = stem + seq!['.'] + ext;
    let b = other + seq!['.'] + same;
    assert forall|j: int| stem.len() < j < a.len() implies a[j] != '.' by {
        assert(a[j] == ext[j - stem.len() - 1]);
    }
    assert forall|j: int| other.len() < j < b.len() implies b[j] != '.' by {
        assert(b[j] == same[j - other.len() - 1]);
    }
    text::lemma_after_last(a, '.', stem.len() as int);
    text::lemma_after_last(b, '.', other.len() as int);
    assert(a.skip(stem.len() as int + 1) =~= ext);
    assert(b.skip(other.len() as int + 1) =~= same);
    text::lemma_no_last(ext, '.');
    reveal_strlit("");
}

/// A known extension is mostly its own subtype, of a picture or of a video; an unknown
/// one is no type at all.
pub proof fn known_extensions(ext: Seq<char>)
    ensures
        ext == "png"@ || ext == "gif"@ || ext == "webp"@ || ext == "avif"@ || ext == "heic"@
            || ext == "jpeg"@ ==> extension_mime(ext) == "image/"@ + ext,
        ext == "jpg"@ ==> extension_mime(ext) == "image/"@ + "jpeg"@,
        ext == "mp4"@ || ext == "webm"@ ==> extension_mime(ext) == "video/"@ + ext,
        ext == "mov"@ ==> extension_mime(ext) == "video/"@ + "quicktime"@,
        ext == "m4v"@ ==> extension_mime(ext) == "video/"@ + "x-m4v"@,
        extension_mime(ext).len() > 0 <==> ext == "png"@ || ext == "gif"@ || ext == "webp"@ || ext
            == "avif"@ || ext == "heic"@ || ext == "jpg"@ || ext == "jpeg"@ || ext == "mp4"@ || ext
            == "webm"@ || ext == "mov"@ || ext == "m4v"@,
{
    reveal_strlit("png");
    reveal_strlit("gif");
    reveal_strlit("webp");
    reveal_strlit("avif");
    reveal_strlit("heic");
    reveal_strlit("jpg");
    reveal_strlit("jpeg");
    reveal_strlit("mp4");
    reveal_strlit("webm");
    reveal_strlit("mov");
    reveal_strlit("m4v");
    reveal_strlit("quicktime");
    reveal_strlit("x-m4v");
    reveal_strlit("image/");
    reveal_strlit("video/");
    reveal_strlit("image/png");
    reveal_strlit("image/jpeg");
    reveal_strlit("image/gif");
    reveal_strlit("image/webp");
    reveal_strlit("image/avif");
    reveal_strlit("image/heic");
    reveal_strlit("video/mp4");
    reveal_strlit("video/quicktime");
    reveal_strlit("video/webm");
    reveal_strlit("video/x-m4v");
    reveal_strlit("");
    assert("jpg"@[2] != "jpeg"@[2] && "png"@[0] != "jpg"@[0] && "gif"@[0] != "png"@[0]
        && "webp"@[3] != "webm"@[3] && "mp4"@[1] != "mov"@[1] && "m4v"@[1] != "mov"@[1]
        && "mp4"@[1] != "m4v"@[1] && "avif"@[0] == 'a' && "heic"@[0] == 'h' && "gif"@[0] == 'g');
    assert("image/"@ + "png"@ =~= "image/png"@);
    assert("image/"@ + "gif"@ =~= "image/gif"@);
    assert("image/"@ + "webp"@ =~= "image/webp"@);
    assert("image/"@ + "avif"@ =~= "image/avif"@);
    assert("image/"@ + "heic"@ =~= "image/heic"@);
    assert("image/"@ + "jpeg"@ =~= "image/jpeg"@);
    assert("video/"@ + "mp4"@ =~= "video/mp4"@);
    assert("video/"@ + "webm"@ =~= "video/webm"@);
    assert("video/"@ + "quicktime"@ =~= "video/quicktime"@);
    assert("video/"@ + "x-m4v"@ =~= "video/x-m4v"@);
}

/// A provider that offers nothing offers none of the six.
pub proof fn nothing_is_none_of_the_capabilities()
    ensures
        !PlatformCapabilities::none().publish,
        !PlatformCapabilities::none().read_comments,
        !PlatformCapabilities::none().read_dms,
        !PlatformCapabilities::none().send_dm,
        !PlatformCapabilities::none().read_engagement,
        !PlatformCapabilities::none().schedule,
{
}

/// The platforms stand in a row of nine, from X to Threads, no two in one place.
pub proof fn platforms_stand_in_a_row(p: Platform, q: Platform)
    ensures
        0 <= p.rank() < 9,
        p != q ==> p.rank() != q.rank(),
        Platform::X.rank() < Platform::Instagram.rank() < Platform::Tiktok.rank()
            < Platform::Youtube.rank() < Platform::Linkedin.rank() < Platform::Reddit.rank()
            < Platform::Facebook.rank() < Platform::Bluesky.rank() < Platform::Threads.rank(),
{
}

} // verus!
