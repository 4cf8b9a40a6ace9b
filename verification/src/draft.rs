//! What a post says: media, segments, draft bodies, and the check of a body
//! against a platform's limits.
use vstd::prelude::*;
use crate::platform;
use crate::platform::{limits_for_str, mime_for_extension, SegmentStyle};
use crate::text;
use crate::text::{char_count, decimal, is_blank, starts_with};

verus! {

/// A file attached to a post, by local path.
#[derive(Debug, PartialEq, Eq)]
pub struct MediaRef {
    pub path: String,
    /// Empty when unknown.
    pub mime_type: String,
    pub name: String,
}

#[verifier::ext_equal]
pub struct MediaView {
    pub path: Seq<char>,
    pub mime_type: Seq<char>,
    pub name: Seq<char>,
}

impl View for MediaRef {
    type V = MediaView;

    open spec fn view(&self) -> MediaView {
        MediaView { path: self.path@, mime_type: self.mime_type@, name: self.name@ }
    }
}

impl Clone for MediaRef {
    fn clone(&self) -> (r: Self)
        ensures
            r == *self,
    {
        MediaRef {
            path: self.path.clone(),
            mime_type: self.mime_type.clone(),
            name: self.name.clone(),
        }
    }
}

pub open spec fn media_views(m: Seq<MediaRef>) -> Seq<MediaView> {
    m.map_values(|x: MediaRef| x@)
}

/// One unit of a post: its text and its attachments.
#[derive(Debug, PartialEq, Eq)]
pub struct PostSegment {
    pub text: String,
    pub media: Vec<MediaRef>,
}

#[verifier::ext_equal]
pub struct SegmentView {
    pub text: Seq<char>,
    pub media: Seq<MediaView>,
}

impl View for PostSegment {
    type V = SegmentView;

    open spec fn view(&self) -> SegmentView {
        SegmentView { text: self.text@, media: media_views(self.media@) }
    }
}

impl Clone for PostSegment {
    fn clone(&self) -> (r: Self)
        ensures
            r@ == self@,
    {
        let media = self.media.clone();
        assert(media@ =~= self.media@);
        PostSegment { text: self.text.clone(), media }
    }
}

impl Default for PostSegment {
    fn default() -> (r: Self)
        ensures
            r@ == empty_segment(),
    {
        let r = PostSegment { text: String::new(), media: Vec::new() };
        assert(r@ =~= empty_segment());
        r
    }
}

pub open spec fn empty_segment() -> SegmentView {
    SegmentView { text: Seq::empty(), media: Seq::empty() }
}

pub open spec fn segment_views(s: Seq<PostSegment>) -> Seq<SegmentView> {
    s.map_values(|x: PostSegment| x@)
}

/// A post's content. `text` and `media` mirror the first segment.
#[derive(Debug, PartialEq, Eq)]
pub struct DraftBody {
    pub schema_version: u32,
    pub text: String,
    pub media: Vec<MediaRef>,
    pub account_ids: Vec<String>,
    pub segments: Vec<PostSegment>,
}

#[verifier::ext_equal]
pub struct DraftBodyView {
    pub schema_version: u32,
    pub text: Seq<char>,
    pub media: Seq<MediaView>,
    pub account_ids: Seq<Seq<char>>,
    pub segments: Seq<SegmentView>,
}

impl View for DraftBody {
    type V = DraftBodyView;

    open spec fn view(&self) -> DraftBodyView {
        DraftBodyView {
            schema_version: self.schema_version,
            text: self.text@,
            media: media_views(self.media@),
            account_ids: text::texts(self.account_ids@),
            segments: segment_views(self.segments@),
        }
    }
}

impl DraftBodyView {
    /// At least one segment, the top level mirroring the first, current version.
    pub open spec fn mirrored(self) -> bool {
        &&& self.schema_version == DraftBody::SCHEMA_VERSION
        &&& self.segments.len() >= 1
        &&& self.text == self.segments[0].text
        &&& self.media == self.segments[0].media
    }

    /// The body with the mirror restored; a body without segments gets one made
    /// of its top level.
    pub open spec fn normal(self) -> DraftBodyView {
        let segments = if self.segments.len() == 0 {
            seq![SegmentView { text: self.text, media: self.media }]
        } else {
            self.segments
        };
        DraftBodyView {
            schema_version: DraftBody::SCHEMA_VERSION,
            text: segments[0].text,
            media: segments[0].media,
            account_ids: self.account_ids,
            segments,
        }
    }

    /// No segment has text other than white space, and none has media.
    pub open spec fn says_nothing(self) -> bool {
        forall|i: int|
            0 <= i < self.segments.len() ==> text::blank((#[trigger] self.segments[i]).text)
                && self.segments[i].media.len() == 0
    }
}

pub open spec fn empty_body() -> DraftBodyView {
    DraftBodyView {
        schema_version: DraftBody::SCHEMA_VERSION,
        text: Seq::empty(),
        media: Seq::empty(),
        account_ids: Seq::empty(),
        segments: seq![empty_segment()],
    }
}

/// Whether a text is a JSON object: what `serde_json::from_str::<Value>` followed
/// by `Value::is_object` says of it.
pub uninterp spec fn json_object(raw: Seq<char>) -> bool;

/// Calls `serde_json::from_str` on the text, as a `serde_json::Value`, and
/// `Value::is_object` on the outcome; a text that does not parse is no object.
/// The result depends on the text alone.
#[verifier::external_body]
pub(crate) fn is_json_object(raw: &str) -> (r: bool)
    ensures
        r == json_object(raw@),
{
    match serde_json::from_str::<serde_json::Value>(raw) {
        Ok(value) => value.is_object(),
        Err(_) => false,
    }
}

/// What a stored blob decodes to, given whether it is a JSON object and the
/// fields that deserialising it gave (`None` where that failed).
pub open spec fn decoded_body(object: bool, fields: Option<DraftBodyView>) -> DraftBodyView {
    match fields {
        Some(body) if object => body.normal(),
        _ => empty_body(),
    }
}

impl Clone for DraftBody {
    fn clone(&self) -> (r: Self)
        ensures
            r@ == self@,
    {
        let media = self.media.clone();
        let account_ids = self.account_ids.clone();
        let segments = self.segments.clone();
        proof {
            assert(media@ =~= self.media@);
            assert(account_ids@ =~= self.account_ids@);
            assert(segment_views(segments@) =~= segment_views(self.segments@));
        }
        DraftBody {
            schema_version: self.schema_version,
            text: self.text.clone(),
            media,
            account_ids,
            segments,
        }
    }
}

impl Default for DraftBody {
    fn default() -> (r: Self)
        ensures
            r@ == empty_body(),
    {
        Self::empty()
    }
}

impl DraftBody {
    pub const SCHEMA_VERSION: u32 = 2;

    pub fn current_schema_version() -> (r: u32)
        ensures
            r == Self::SCHEMA_VERSION,
    {
        Self::SCHEMA_VERSION
    }

    /// A body with exactly one empty segment.
    pub fn empty() -> (r: Self)
        ensures
            r@ == empty_body(),
    {
        let mut segments: Vec<PostSegment> = Vec::new();
        segments.push(PostSegment::default());
        let r = Self {
            schema_version: Self::SCHEMA_VERSION,
            text: String::new(),
            media: Vec::new(),
            account_ids: Vec::new(),
            segments,
        };
        assert(r@ =~= empty_body());
        r
    }

    /// Decode a stored blob. Never fails: a blob that is no JSON object, or whose
    /// fields did not deserialise, reads as the empty body. `fields` is what
    /// deserialising `raw` field by field gave.
    pub fn decode(raw: &str, fields: Option<DraftBody>) -> (r: Self)
        ensures
            r@ == decoded_body(
                json_object(raw@),
                match fields {
                    Some(b) => Some(b@),
                    None => None,
                },
            ),
            r@.mirrored(),
    {
        let object = is_json_object(raw);
        Self::from_decoded(object, fields)
    }

    /// [`DraftBody::decode`] once it is known whether the blob is a JSON object.
    pub fn from_decoded(object: bool, fields: Option<DraftBody>) -> (r: Self)
        ensures
            r@ == decoded_body(
                object,
                match fields {
                    Some(b) => Some(b@),
                    None => None,
                },
            ),
            r@.mirrored(),
    {
        match fields {
            Some(body) if object => {
                let mut body = body;
                body.normalize();
                body
            },
            _ => Self::empty(),
        }
    }

    /// The body as it is written back: the mirror restored first.
    pub fn normalized(&self) -> (r: Self)
        ensures
            r@ == self@.normal(),
            r@.mirrored(),
    {
        let mut body = self.clone();
        body.normalize();
        body
    }

    /// Force at least one segment and mirror the first into `text` and `media`.
    pub fn normalize(&mut self)
        ensures
            final(self)@ == old(self)@.normal(),
            final(self)@.mirrored(),
    {
        self.schema_version = Self::SCHEMA_VERSION;
        if self.segments.len() == 0 {
            let text = self.text.clone();
            let media = self.media.clone();
            assert(media@ =~= self.media@);
            let mut segments: Vec<PostSegment> = Vec::new();
            segments.push(PostSegment { text, media });
            self.segments = segments;
            assert(segment_views(self.segments@) =~= old(self)@.normal().segments);
        }
        let text = self.segments[0].text.clone();
        let media = self.segments[0].media.clone();
        assert(media@ =~= self.segments@[0].media@);
        assert(self.segments@[0]@ == segment_views(self.segments@)[0]);
        self.text = text;
        self.media = media;
        assert(segment_views(self.segments@) =~= old(self)@.normal().segments);
    }

    /// True when there is nothing worth publishing.
    pub fn is_empty(&self) -> (r: bool)
        ensures
            r == self@.says_nothing(),
    {
        let mut i: usize = 0;
        while i < self.segments.len()
            invariant
                i <= self.segments.len(),
                forall|j: int|
                    0 <= j < i ==> text::blank((#[trigger] self@.segments[j]).text)
                        && self@.segments[j].media.len() == 0,
            decreases self.segments.len() - i,
        {
            let s = &self.segments[i];
            assert(self@.segments[i as int] == s@);
            if !is_blank(s.text.as_str()) || s.media.len() > 0 {
                return false;
            }
            i = i + 1;
        }
        true
    }
}

/// Normalising twice is normalising once, and what it gives is mirrored.
pub proof fn normalize_is_idempotent(b: DraftBodyView)
    ensures
        b.normal().mirrored(),
        b.normal().normal() == b.normal(),
{
    assert(b.normal().normal() =~= b.normal());
}

/// A mirrored body is left as it is.
pub proof fn normalize_keeps_a_mirrored_body(b: DraftBodyView)
    requires
        b.mirrored(),
    ensures
        b.normal() == b,
{
    assert(b.normal() =~= b);
}

/// Whatever a blob holds, decoding it gives a mirrored body.
pub proof fn decode_always_gives_a_mirrored_body(object: bool, fields: Option<DraftBodyView>)
    ensures
        decoded_body(object, fields).mirrored(),
{
}

/// What is written back decodes to the same body.
pub proof fn decode_undoes_encode(b: DraftBodyView)
    ensures
        decoded_body(true, Some(b.normal())) == b.normal(),
        b.mirrored() ==> decoded_body(true, Some(b.normal())) == b,
{
    normalize_is_idempotent(b);
    if b.mirrored() {
        normalize_keeps_a_mirrored_body(b);
    }
}

/// The mime type an attachment has: its own, or the one read off its name, or off its
/// path.
pub open spec fn media_mime(m: MediaView) -> Seq<char> {
    if m.mime_type.len() > 0 {
        m.mime_type
    } else if platform::mime_of_name(m.name).len() > 0 {
        platform::mime_of_name(m.name)
    } else {
        platform::mime_of_name(m.path)
    }
}

pub(crate) fn mime_of_media(media: &MediaRef) -> (r: &str)
    ensures
        r@ == media_mime(media@),
{
    if !media.mime_type.as_str().is_empty() {
        return media.mime_type.as_str();
    }
    let by_name: &str = mime_for_extension(media.name.as_str());
    if by_name.is_empty() {
        mime_for_extension(media.path.as_str())
    } else {
        by_name
    }
}

pub open spec fn mime_allowed(prefixes: Seq<Seq<char>>, mime: Seq<char>) -> bool {
    exists|i: int| 0 <= i < prefixes.len() && (#[trigger] prefixes[i]).is_prefix_of(mime)
}

pub open spec fn media_refusal(m: MediaView) -> Seq<char> {
    let mime = media_mime(m);
    let shown = if mime.len() == 0 {
        "unknown type"@
    } else {
        mime
    };
    let name = if m.name.len() == 0 {
        m.path
    } else {
        m.name
    };
    "Does not accept \""@ + name + "\" ("@ + shown + ")"@
}

/// The refusal of the first attachment whose type is not allowed.
pub open spec fn first_media_refusal(
    prefixes: Seq<Seq<char>>,
    media: Seq<MediaView>,
) -> Option<Seq<char>>
    decreases media.len(),
{
    if media.len() == 0 {
        None
    } else {
        match first_media_refusal(prefixes, media.drop_last()) {
            Some(r) => Some(r),
            None => if mime_allowed(prefixes, media_mime(media.last())) {
                None
            } else {
                Some(media_refusal(media.last()))
            },
        }
    }
}

/// The first reason why one segment does not fit limits: emptiness (of trimmed
/// text), the length of the untrimmed text, the number of attachments, their
/// types, in this order.
pub open spec fn violation(
    limits: platform::LimitsView,
    text: Seq<char>,
    media: Seq<MediaView>,
) -> Option<Seq<char>> {
    if text::blank(text) && media.len() == 0 {
        Some("Post is empty"@)
    } else if text.len() > limits.max_chars {
        Some(
            "Over the "@ + text::decimal_of(limits.max_chars) + " character limit by "@
                + text::decimal_of((text.len() - limits.max_chars) as nat),
        )
    } else if media.len() > limits.max_media {
        Some("Allows at most "@ + text::decimal_of(limits.max_media) + " attachment(s)"@)
    } else {
        first_media_refusal(limits.prefixes, media)
    }
}

/// The violation of the first segment that has one, with its position.
pub open spec fn first_segment_violation(
    limits: platform::LimitsView,
    segments: Seq<SegmentView>,
) -> Option<Seq<char>>
    decreases segments.len(),
{
    if segments.len() == 0 {
        None
    } else {
        match first_segment_violation(limits, segments.drop_last()) {
            Some(r) => Some(r),
            None => match violation(limits, segments.last().text, segments.last().media) {
                Some(r) => Some(
                    limits.style.item_noun_text() + " "@ + text::decimal_of(segments.len()) + ": "@
                        + r,
                ),
                None => None,
            },
        }
    }
}

/// The first reason why a whole post does not fit limits. Where segments are
/// dropped, only the first is judged.
pub open spec fn segments_violation(
    limits: platform::LimitsView,
    segments: Seq<SegmentView>,
) -> Option<Seq<char>> {
    if segments.len() == 0 {
        Some("Post is empty"@)
    } else if limits.style == SegmentStyle::Single {
        violation(limits, segments[0].text, segments[0].media)
    } else if segments.len() > limits.max_segments {
        Some(
            "Allows at most "@ + text::decimal_of(limits.max_segments) + " "@
                + limits.style.noun_text(),
        )
    } else {
        first_segment_violation(limits, segments)
    }
}

fn is_mime_allowed(prefixes: &'static [&'static str], mime: &str) -> (r: bool)
    ensures
        r == mime_allowed(prefixes@.map_values(|p: &'static str| p@), mime@),
{
    let ghost ps = prefixes@.map_values(|p: &'static str| p@);
    let mut i: usize = 0;
    while i < prefixes.len()
        invariant
            i <= prefixes.len(),
            ps == prefixes@.map_values(|p: &'static str| p@),
            forall|j: int| 0 <= j < i ==> !(#[trigger] ps[j]).is_prefix_of(mime@),
        decreases prefixes.len() - i,
    {
        assert(ps[i as int] == prefixes@[i as int]@);
        if starts_with(mime, prefixes[i]) {
            return true;
        }
        i = i + 1;
    }
    false
}

/// Check one segment against a platform's limits: the first blocking reason, or
/// `None` when it fits.
pub fn validate_for_platform(platform: &str, text: &str, media: &[MediaRef]) -> (r: Option<String>)
    ensures
        text::opt_text(r) == violation(
            platform::limits_view_named(platform@),
            text@,
            media_views(media@),
        ),
{
    let limits = limits_for_str(platform);
    if is_blank(text) && media.len() == 0 {
        return Some("Post is empty".to_owned());
    }
    let chars: usize = char_count(text);
    if chars > limits.max_chars {
        let over: usize = chars - limits.max_chars;
        let mut m: String = "Over the ".to_owned();
        m.append(decimal(limits.max_chars as u128).as_str());
        m.append(" character limit by ");
        m.append(decimal(over as u128).as_str());
        return Some(m);
    }
    if media.len() > limits.max_media {
        let mut m: String = "Allows at most ".to_owned();
        m.append(decimal(limits.max_media as u128).as_str());
        m.append(" attachment(s)");
        return Some(m);
    }
    let ghost views = media_views(media@);
    let mut i: usize = 0;
    while i < media.len()
        invariant
            i <= media.len(),
            views == media_views(media@),
            limits@ == platform::limits_view_named(platform@),
            !(text::blank(text@) && media.len() == 0),
            text@.len() <= limits.max_chars,
            media.len() <= limits.max_media,
            first_media_refusal(limits@.prefixes, views.take(i as int)) is None,
        decreases media.len() - i,
    {
        proof {
            assert(views.take(i as int + 1).drop_last() =~= views.take(i as int));
            assert(views.take(i as int + 1).last() == media@[i as int]@);
        }
        let item = &media[i];
        let mime: &str = mime_of_media(item);
        if !is_mime_allowed(limits.allowed_mime_prefixes, mime) {
            let shown: &str = if mime.is_empty() {
                "unknown type"
            } else {
                mime
            };
            let name: &str = if item.name.as_str().is_empty() {
                item.path.as_str()
            } else {
                item.name.as_str()
            };
            let mut m: String = "Does not accept \"".to_owned();
            m.append(name);
            m.append("\" (");
            m.append(shown);
            m.append(")");
            proof {
                lemma_refusal_stands(limits@.prefixes, views, i as int + 1);
            }
            return Some(m);
        }
        i = i + 1;
    }
    assert(views.take(views.len() as int) =~= views);
    None
}

/// A refusal found in a prefix of the attachments is the first of them all.
proof fn lemma_refusal_stands(prefixes: Seq<Seq<char>>, media: Seq<MediaView>, k: int)
    requires
        0 <= k <= media.len(),
        first_media_refusal(prefixes, media.take(k)) is Some,
    ensures
        first_media_refusal(prefixes, media) == first_media_refusal(prefixes, media.take(k)),
    decreases media.len(),
{
    if k == media.len() {
        assert(media.take(k) =~= media);
    } else {
        assert(media.drop_last().take(k) =~= media.take(k));
        lemma_refusal_stands(prefixes, media.drop_last(), k);
    }
}

proof fn lemma_segment_violation_stands(
    limits: platform::LimitsView,
    segments: Seq<SegmentView>,
    k: int,
)
    requires
        0 <= k <= segments.len(),
        first_segment_violation(limits, segments.take(k)) is Some,
    ensures
        first_segment_violation(limits, segments) == first_segment_violation(
            limits,
            segments.take(k),
        ),
    decreases segments.len(),
{
    if k == segments.len() {
        assert(segments.take(k) =~= segments);
    } else {
        assert(segments.drop_last().take(k) =~= segments.take(k));
        lemma_segment_violation_stands(limits, segments.drop_last(), k);
    }
}

/// Check a whole post against a platform's limits.
pub fn validate_segments_for_platform(platform: &str, segments: &[PostSegment]) -> (r: Option<
    String,
>)
    ensures
        text::opt_text(r) == segments_violation(
            platform::limits_view_named(platform@),
            segment_views(segments@),
        ),
{
    let limits = limits_for_str(platform);
    let ghost views = segment_views(segments@);
    if segments.len() == 0 {
        return Some("Post is empty".to_owned());
    }
    assert(views[0] == segments@[0]@);
    if limits.segment_style == SegmentStyle::Single {
        return validate_for_platform(
            platform,
            segments[0].text.as_str(),
            segments[0].media.as_slice(),
        );
    }
    if segments.len() > limits.max_segments {
        let mut m: String = "Allows at most ".to_owned();
        m.append(decimal(limits.max_segments as u128).as_str());
        m.append(" ");
        m.append(limits.segment_style.noun());
        return Some(m);
    }
    let mut i: usize = 0;
    while i < segments.len()
        invariant
            i <= segments.len(),
            segments.len() <= limits.max_segments,
            limits@ == platform::limits_view_named(platform@),
            limits@.style != SegmentStyle::Single,
            views == segment_views(segments@),
            first_segment_violation(limits@, views.take(i as int)) is None,
        decreases segments.len() - i,
    {
        proof {
            assert(views.take(i as int + 1).drop_last() =~= views.take(i as int));
            assert(views.take(i as int + 1).last() == segments@[i as int]@);
        }
        let found = validate_for_platform(
            platform,
            segments[i].text.as_str(),
            segments[i].media.as_slice(),
        );
        match found {
            Some(reason) => {
                let mut m: String = limits.segment_style.item_noun().to_owned();
                m.append(" ");
                m.append(decimal(i as u128 + 1).as_str());
                m.append(": ");
                m.append(reason.as_str());
                proof {
                    lemma_segment_violation_stands(limits@, views, i as int + 1);
                }
                return Some(m);
            },
            None => {},
        }
        i = i + 1;
    }
    assert(views.take(views.len() as int) =~= views);
    None
}

/// Where further segments are dropped they change nothing of the verdict.
pub proof fn dropped_segments_are_not_judged(
    limits: platform::LimitsView,
    first: SegmentView,
    rest: Seq<SegmentView>,
)
    requires
        limits.style == SegmentStyle::Single,
    ensures
        segments_violation(limits, seq![first] + rest) == violation(
            limits,
            first.text,
            first.media,
        ),
{
    assert((seq![first] + rest)[0] == first);
}

/// A post passes exactly when every segment that goes out fits, and there are no
/// more of them than the platform takes.
pub proof fn a_post_fits_exactly_when_its_segments_do(
    limits: platform::LimitsView,
    segments: Seq<SegmentView>,
)
    requires
        limits.style != SegmentStyle::Single,
    ensures
        segments_violation(limits, segments) is None <==> {
            &&& 1 <= segments.len() <= limits.max_segments
            &&& forall|i: int|
                0 <= i < segments.len() ==> violation(
                    limits,
                    (#[trigger] segments[i]).text,
                    segments[i].media,
                ) is None
        },
{
    lemma_all_segments_fit(limits, segments);
}

proof fn lemma_all_segments_fit(limits: platform::LimitsView, segments: Seq<SegmentView>)
    ensures
        first_segment_violation(limits, segments) is None <==> forall|i: int|
            0 <= i < segments.len() ==> violation(
                limits,
                (#[trigger] segments[i]).text,
                segments[i].media,
            ) is None,
    decreases segments.len(),
{
    if segments.len() > 0 {
        let init = segments.drop_last();
        lemma_all_segments_fit(limits, init);
        assert forall|i: int| 0 <= i < init.len() implies init[i] == segments[i] by {}
        if first_segment_violation(limits, init) is Some {
            let i = choose|i: int|
                0 <= i < init.len() && violation(
                    limits,
                    (#[trigger] init[i]).text,
                    init[i].media,
                ) is Some;
            assert(segments[i] == init[i]);
        } else {
            assert forall|i: int| 0 <= i < init.len() implies violation(
                limits,
                (#[trigger] segments[i]).text,
                segments[i].media,
            ) is None by {
                assert(init[i] == segments[i]);
            }
        }
    }
}

/// A post in which nothing is said fits nowhere.
pub proof fn an_empty_post_fits_nowhere(limits: platform::LimitsView, b: DraftBodyView)
    requires
        b.says_nothing(),
    ensures
        segments_violation(limits, b.segments) is Some,
{
    if b.segments.len() > 0 {
        assert(violation(limits, b.segments[0].text, b.segments[0].media) is Some);
        lemma_all_segments_fit(limits, b.segments);
    }
}

// ── What the check promises ────────────────────────────────────────────────────

/// No attachment is refused exactly when each is of an allowed type.
proof fn lemma_no_refusal(prefixes: Seq<Seq<char>>, media: Seq<MediaView>)
    ensures
        first_media_refusal(prefixes, media) is None <==> forall|i: int|
            0 <= i < media.len() ==> mime_allowed(prefixes, media_mime(#[trigger] media[i])),
    decreases media.len(),
{
    if media.len() > 0 {
        let init = media.drop_last();
        lemma_no_refusal(prefixes, init);
        assert forall|i: int| 0 <= i < init.len() implies init[i] == media[i] by {}
        if first_media_refusal(prefixes, init) is Some {
            let i = choose|i: int|
                0 <= i < init.len() && !mime_allowed(prefixes, media_mime(#[trigger] init[i]));
            assert(media[i] == init[i]);
        } else {
            assert forall|i: int| 0 <= i < init.len() implies mime_allowed(
                prefixes,
                media_mime(#[trigger] media[i]),
            ) by {
                assert(init[i] == media[i]);
            }
        }
    }
}

/// A segment passes exactly when it has an attachment or a character that is not
/// white space, no more characters than the platform takes, no more attachments than
/// it takes, and no attachment of a kind that it does not take.
pub proof fn a_segment_passes_exactly_within_the_limits(
    limits: platform::LimitsView,
    text: Seq<char>,
    media: Seq<MediaView>,
)
    ensures
        violation(limits, text, media) is None <==> {
            &&& media.len() > 0 || exists|i: int|
                0 <= i < text.len() && !text::white(#[trigger] text[i])
            &&& text.len() <= limits.max_chars
            &&& media.len() <= limits.max_media
            &&& forall|i: int|
                0 <= i < media.len() ==> exists|j: int|
                    0 <= j < limits.prefixes.len() && (
                    #[trigger] limits.prefixes[j]).is_prefix_of(media_mime(#[trigger] media[i]))
        },
{
    lemma_no_refusal(limits.prefixes, media);
    if violation(limits, text, media) is None {
        assert forall|i: int| 0 <= i < media.len() implies exists|j: int|
            0 <= j < limits.prefixes.len() && (#[trigger] limits.prefixes[j]).is_prefix_of(
                media_mime(#[trigger] media[i]),
            ) by {
            assert(mime_allowed(limits.prefixes, media_mime(media[i])));
        }
    } else if text::blank(text) && media.len() == 0 {
    } else if text.len() <= limits.max_chars && media.len() <= limits.max_media {
        let i = choose|i: int|
            0 <= i < media.len() && !mime_allowed(limits.prefixes, media_mime(#[trigger] media[i]));
        assert(!exists|j: int|
            0 <= j < limits.prefixes.len() && (#[trigger] limits.prefixes[j]).is_prefix_of(
                media_mime(media[i]),
            ));
    }
}

/// A text of `over` characters too many is refused by that number; a segment with too
/// many attachments, by the number that is allowed; and a segment with nothing in it,
/// as empty.
pub proof fn a_refusal_says_by_how_much(
    limits: platform::LimitsView,
    text: Seq<char>,
    media: Seq<MediaView>,
    over: nat,
)
    ensures
        over > 0 && text.len() == limits.max_chars + over && (media.len() > 0 || !text::blank(text))
            ==> violation(limits, text, media) == Some(
            "Over the "@ + text::decimal_of(limits.max_chars) + " character limit by "@
                + text::decimal_of(over),
        ),
        text.len() <= limits.max_chars && media.len() > limits.max_media ==> violation(
            limits,
            text,
            media,
        ) == Some("Allows at most "@ + text::decimal_of(limits.max_media) + " attachment(s)"@),
        text.len() == 0 && media.len() == 0 ==> violation(limits, text, media) == Some(
            "Post is empty"@,
        ),
{
}

/// Where only the kind of an attachment is wrong, the refusal names the first such
/// attachment, by its name or else its path, and its type.
pub proof fn a_refusal_names_the_first_wrong_attachment(
    limits: platform::LimitsView,
    text: Seq<char>,
    media: Seq<MediaView>,
    k: int,
)
    requires
        0 <= k < media.len() <= limits.max_media,
        text.len() <= limits.max_chars,
        forall|i: int|
            0 <= i < k ==> exists|j: int|
                0 <= j < limits.prefixes.len() && (#[trigger] limits.prefixes[j]).is_prefix_of(
                    media_mime(#[trigger] media[i]),
                ),
        forall|j: int|
            0 <= j < limits.prefixes.len() ==> !(#[trigger] limits.prefixes[j]).is_prefix_of(
                media_mime(media[k]),
            ),
    ensures
        violation(limits, text, media) == Some(
            "Does not accept \""@ + (if media[k].name.len() > 0 {
                media[k].name
            } else {
                media[k].path
            }) + "\" ("@ + (if media_mime(media[k]).len() > 0 {
                media_mime(media[k])
            } else {
                "unknown type"@
            }) + ")"@,
        ),
{
    let ok = media.take(k);
    assert forall|i: int| 0 <= i < ok.len() implies mime_allowed(
        limits.prefixes,
        media_mime(#[trigger] ok[i]),
    ) by {
        assert(ok[i] == media[i]);
    }
    lemma_no_refusal(limits.prefixes, ok);
    let upto = media.take(k + 1);
    assert(upto.drop_last() =~= ok);
    assert(upto.last() == media[k]);
    lemma_refusal_stands(limits.prefixes, media, k + 1);
}

/// A post passes exactly when it has a segment, no more of them than the platform
/// takes, and each that goes out (the first alone where the others are dropped) has
/// something in it, within the platform's characters, attachments and kinds.
pub proof fn a_post_passes_exactly_within_the_limits(
    limits: platform::LimitsView,
    segments: Seq<SegmentView>,
)
    ensures
        segments_violation(limits, segments) is None <==> {
            &&& segments.len() > 0
            &&& limits.style != SegmentStyle::Single ==> segments.len() <= limits.max_segments
            &&& forall|i: int|
                0 <= i < segments.len() && (limits.style == SegmentStyle::Single ==> i == 0) ==> {
                    &&& (#[trigger] segments[i]).media.len() > 0 || exists|c: int|
                        0 <= c < segments[i].text.len() && !text::white(
                            #[trigger] segments[i].text[c],
                        )
                    &&& segments[i].text.len() <= limits.max_chars
                    &&& segments[i].media.len() <= limits.max_media
                    &&& forall|m: int|
                        0 <= m < segments[i].media.len() ==> exists|j: int|
                            0 <= j < limits.prefixes.len() && (
                            #[trigger] limits.prefixes[j]).is_prefix_of(
                                media_mime(#[trigger] segments[i].media[m]),
                            )
                }
        },
{
    lemma_all_segments_fit(limits, segments);
    assert forall|i: int| 0 <= i < segments.len() implies (violation(
        limits,
        (#[trigger] segments[i]).text,
        segments[i].media,
    ) is None <==> {
        &&& segments[i].media.len() > 0 || exists|c: int|
            0 <= c < segments[i].text.len() && !text::white(#[trigger] segments[i].text[c])
        &&& segments[i].text.len() <= limits.max_chars
        &&& segments[i].media.len() <= limits.max_media
        &&& forall|m: int|
            0 <= m < segments[i].media.len() ==> exists|j: int|
                0 <= j < limits.prefixes.len() && (#[trigger] limits.prefixes[j]).is_prefix_of(
                    media_mime(#[trigger] segments[i].media[m]),
                )
    }) by {
        a_segment_passes_exactly_within_the_limits(limits, segments[i].text, segments[i].media);
    }
    if segments.len() > 0 {
        assert(segments[0] == segments[0]);
    }
}

/// The complaint about a post of several segments names the first one that does not
/// fit, counted from one, and what is wrong with it.
pub proof fn a_refusal_names_the_first_wrong_segment(
    limits: platform::LimitsView,
    segments: Seq<SegmentView>,
    k: int,
)
    requires
        limits.style != SegmentStyle::Single,
        0 <= k < segments.len() <= limits.max_segments,
        forall|i: int|
            0 <= i < k ==> violation(
                limits,
                (#[trigger] segments[i]).text,
                segments[i].media,
            ) is None,
        violation(limits, segments[k].text, segments[k].media) is Some,
    ensures
        segments_violation(limits, segments) == Some(
            (if limits.style == SegmentStyle::Carousel {
                "Slide "@
            } else {
                "Post "@
            }) + text::decimal_of((k + 1) as nat) + ": "@ + violation(
                limits,
                segments[k].text,
                segments[k].media,
            )->0,
        ),
{
    let ok = segments.take(k);
    assert forall|i: int| 0 <= i < ok.len() implies violation(
        limits,
        (#[trigger] ok[i]).text,
        ok[i].media,
    ) is None by {
        assert(ok[i] == segments[i]);
    }
    lemma_all_segments_fit(limits, ok);
    let upto = segments.take(k + 1);
    assert(upto.drop_last() =~= ok);
    assert(upto.last() == segments[k]);
    lemma_segment_violation_stands(limits, segments, k + 1);
    reveal_strlit("Slide ");
    reveal_strlit("Post ");
    reveal_strlit("Slide");
    reveal_strlit("Post");
    reveal_strlit(" ");
    assert("Slide"@ + " "@ =~= "Slide "@);
    assert("Post"@ + " "@ =~= "Post "@);
}

/// Too many segments are refused with the number that is allowed.
pub proof fn too_many_segments_are_refused(
    limits: platform::LimitsView,
    segments: Seq<SegmentView>,
)
    requires
        limits.style != SegmentStyle::Single,
        segments.len() > limits.max_segments,
    ensures
        segments_violation(limits, segments) == Some(
            if segments.len() == 0 {
                "Post is empty"@
            } else {
                "Allows at most "@ + text::decimal_of(limits.max_segments) + (if limits.style
                    == SegmentStyle::Carousel {
                    " slides"@
                } else {
                    " posts"@
                })
            },
        ),
{
    reveal_strlit(" slides");
    reveal_strlit(" posts");
    reveal_strlit("slides");
    reveal_strlit("posts");
    reveal_strlit(" ");
    let head = "Allows at most "@ + text::decimal_of(limits.max_segments);
    assert(head + " "@ + "slides"@ =~= head + " slides"@);
    assert(head + " "@ + "posts"@ =~= head + " posts"@);
}

/// Normalising a body changes neither its accounts nor its segments; one without
/// segments gets its text and its attachments as the only one; and the top level says
/// what the first segment says.
pub proof fn normalizing_keeps_what_is_said(b: DraftBodyView)
    ensures
        b.normal().account_ids == b.account_ids,
        b.segments.len() > 0 ==> b.normal().segments == b.segments,
        b.segments.len() == 0 ==> b.normal().segments.len() == 1 && b.normal().segments[0].text
            == b.text && b.normal().segments[0].media == b.media,
        b.normal().segments.len() > 0,
        b.normal().text == b.normal().segments[0].text,
        b.normal().media == b.normal().segments[0].media,
        b.normal().schema_version == 2,
{
}

/// A body says something as soon as one of its segments has an attachment or a
/// character that is not white space, and only then.
pub proof fn a_body_speaks_through_any_segment(b: DraftBodyView)
    ensures
        !b.says_nothing() <==> exists|i: int|
            0 <= i < b.segments.len() && ((#[trigger] b.segments[i]).media.len() > 0 || exists|
                c: int,
            |
                0 <= c < b.segments[i].text.len() && !text::white(
                    #[trigger] b.segments[i].text[c],
                )),
{
    if !b.says_nothing() {
        let i = choose|i: int|
            0 <= i < b.segments.len() && !(text::blank((#[trigger] b.segments[i]).text)
                && b.segments[i].media.len() == 0);
        assert(b.segments[i].media.len() > 0 || exists|c: int|
            0 <= c < b.segments[i].text.len() && !text::white(#[trigger] b.segments[i].text[c]));
    }
}

/// A blob that is no object, or whose fields are not a body's, reads as a body with
/// nothing in it; any other, as its fields: the accounts as stored, and the segments,
/// or the top level where there is none.
pub proof fn a_blob_reads_as_its_fields(object: bool, fields: Option<DraftBodyView>)
    ensures
        !object || fields is None ==> {
            let r = decoded_body(object, fields);
            &&& r.says_nothing()
            &&& r.account_ids.len() == 0
            &&& r.text.len() == 0
            &&& r.media.len() == 0
            &&& r.segments.len() == 1
        },
        object && fields is Some ==> {
            let r = decoded_body(object, fields);
            let f = fields->0;
            &&& r.account_ids == f.account_ids
            &&& f.segments.len() > 0 ==> r.segments == f.segments
            &&& f.segments.len() == 0 ==> r.text == f.text && r.media == f.media
        },
{
}

/// A stated type is an attachment's type, whatever it is called; without one, its name
/// tells the type, and where that tells none, its path.
pub proof fn a_stated_type_comes_first(m: MediaView)
    ensures
        m.mime_type.len() > 0 ==> media_mime(m) == m.mime_type,
        m.mime_type.len() == 0 && platform::mime_of_name(m.name).len() > 0 ==> media_mime(m)
            == platform::mime_of_name(m.name),
        m.mime_type.len() == 0 && platform::mime_of_name(m.name).len() == 0 ==> media_mime(m)
            == platform::mime_of_name(m.path),
{
}

} // verus!
