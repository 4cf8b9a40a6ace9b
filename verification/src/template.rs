//! Templates: a starting text, with texts of their own for some platforms.
use vstd::prelude::*;
use crate::draft;
use crate::draft::is_json_object;
use crate::text;
use crate::text::is_blank;

verus! {

/// What a template says.
#[derive(Debug, PartialEq, Eq)]
pub struct TemplateBody {
    pub schema_version: u32,
    pub text: String,
    /// Starting texts by platform name, in the order of the names. No name occurs
    /// twice.
    pub platform_defaults: Vec<(String, String)>,
}

#[verifier::ext_equal]
pub struct TemplateBodyView {
    pub schema_version: u32,
    pub text: Seq<char>,
    pub platform_defaults: Seq<(Seq<char>, Seq<char>)>,
}

pub open spec fn pair_views(s: Seq<(String, String)>) -> Seq<(Seq<char>, Seq<char>)> {
    s.map_values(|p: (String, String)| (p.0@, p.1@))
}

impl View for TemplateBody {
    type V = TemplateBodyView;

    open spec fn view(&self) -> TemplateBodyView {
        TemplateBodyView {
            schema_version: self.schema_version,
            text: self.text@,
            platform_defaults: pair_views(self.platform_defaults@),
        }
    }
}

/// The entries whose text is not blank, in their order.
pub open spec fn spoken(s: Seq<(Seq<char>, Seq<char>)>) -> Seq<(Seq<char>, Seq<char>)>
    decreases s.len(),
{
    if s.len() == 0 {
        s
    } else if text::blank(s.last().1) {
        spoken(s.drop_last())
    } else {
        spoken(s.drop_last()).push(s.last())
    }
}

pub open spec fn in_name_order(a: (Seq<char>, Seq<char>), b: (Seq<char>, Seq<char>)) -> bool {
    text::text_le(a.0, b.0) && a.0 != b.0
}

pub open spec fn by_name(s: Seq<(Seq<char>, Seq<char>)>) -> bool {
    forall|i: int, j: int|
        0 <= i < j < s.len() ==> in_name_order(#[trigger] s[i], #[trigger] s[j])
}

impl TemplateBodyView {
    /// The platform names are in order, and none occurs twice.
    pub open spec fn wf(self) -> bool {
        by_name(self.platform_defaults)
    }

    /// Current version, blank platform texts dropped.
    pub open spec fn normal(self) -> TemplateBodyView {
        TemplateBodyView {
            schema_version: TemplateBody::SCHEMA_VERSION,
            text: self.text,
            platform_defaults: spoken(self.platform_defaults),
        }
    }
}

pub open spec fn plain_template(text: Seq<char>) -> TemplateBodyView {
    TemplateBodyView {
        schema_version: TemplateBody::SCHEMA_VERSION,
        text,
        platform_defaults: Seq::empty(),
    }
}

/// What a stored blob decodes to: the fields of a JSON object, normalised; of an
/// object whose fields did not deserialise, nothing; of anything else, the blob
/// itself as the text.
pub open spec fn decoded_template(
    raw: Seq<char>,
    object: bool,
    fields: Option<TemplateBodyView>,
) -> TemplateBodyView {
    if object {
        match fields {
            Some(body) => body.normal(),
            None => plain_template(Seq::empty()),
        }
    } else {
        plain_template(raw)
    }
}

impl Clone for TemplateBody {
    fn clone(&self) -> (r: Self)
        ensures
            r@ == self@,
    {
        let mut defaults: Vec<(String, String)> = Vec::new();
        let mut i: usize = 0;
        while i < self.platform_defaults.len()
            invariant
                i <= self.platform_defaults.len(),
                pair_views(defaults@) == pair_views(self.platform_defaults@).take(i as int),
            decreases self.platform_defaults.len() - i,
        {
            let k = self.platform_defaults[i].0.clone();
            let v = self.platform_defaults[i].1.clone();
            let ghost before = defaults@;
            defaults.push((k, v));
            proof {
                assert(pair_views(defaults@) =~= pair_views(before).push((k@, v@)));
                assert(pair_views(self.platform_defaults@).take(i as int + 1) =~= pair_views(
                    self.platform_defaults@,
                ).take(i as int).push((k@, v@)));
            }
            i = i + 1;
        }
        assert(pair_views(self.platform_defaults@).take(self.platform_defaults@.len() as int)
            =~= pair_views(self.platform_defaults@));
        TemplateBody {
            schema_version: self.schema_version,
            text: self.text.clone(),
            platform_defaults: defaults,
        }
    }
}

impl Default for TemplateBody {
    fn default() -> (r: Self)
        ensures
            r@.wf(),
            r.schema_version == 0,
            r.text@ == Seq::<char>::empty(),
            r.platform_defaults@.len() == 0,
    {
        TemplateBody { schema_version: 0, text: String::new(), platform_defaults: Vec::new() }
    }
}

impl TemplateBody {
    pub const SCHEMA_VERSION: u32 = 1;

    pub fn current_schema_version() -> (r: u32)
        ensures
            r == Self::SCHEMA_VERSION,
    {
        Self::SCHEMA_VERSION
    }

    fn plain(text: &str) -> (r: Self)
        ensures
            r@ == plain_template(text@),
    {
        let r = Self {
            schema_version: Self::SCHEMA_VERSION,
            text: text.to_owned(),
            platform_defaults: Vec::new(),
        };
        assert(r@ =~= plain_template(text@));
        r
    }

    /// Decode a stored blob. Never fails: what is no JSON object is the text of an
    /// old plain template. `fields` is what deserialising `raw` field by field gave.
    pub fn decode(raw: &str, fields: Option<TemplateBody>) -> (r: Self)
        requires
            match fields {
                Some(b) => b@.wf(),
                None => true,
            },
        ensures
            r@.wf(),
            r@ == decoded_template(
                raw@,
                draft::json_object(raw@),
                match fields {
                    Some(b) => Some(b@),
                    None => None,
                },
            ),
    {
        let object = is_json_object(raw);
        Self::from_decoded(raw, object, fields)
    }

    /// [`TemplateBody::decode`] once it is known whether the blob is a JSON object.
    pub fn from_decoded(raw: &str, object: bool, fields: Option<TemplateBody>) -> (r: Self)
        requires
            match fields {
                Some(b) => b@.wf(),
                None => true,
            },
        ensures
            r@.wf(),
            r@ == decoded_template(
                raw@,
                object,
                match fields {
                    Some(b) => Some(b@),
                    None => None,
                },
            ),
    {
        if !object {
            return Self::plain(raw);
        }
        match fields {
            Some(body) => {
                let mut body = body;
                body.normalize();
                body
            },
            None => {
                proof {
                    reveal_strlit("");
                    assert(""@ =~= Seq::<char>::empty());
                }
                Self::plain("")
            },
        }
    }

    /// The body as it is written back.
    pub fn normalized(&self) -> (r: Self)
        requires
            self@.wf(),
        ensures
            r@ == self@.normal(),
            r@.wf(),
    {
        let mut body = self.clone();
        body.normalize();
        body
    }

    /// Drop blank per-platform texts.
    pub fn normalize(&mut self)
        requires
            old(self)@.wf(),
        ensures
            final(self)@ == old(self)@.normal(),
            final(self)@.wf(),
    {
        self.schema_version = Self::SCHEMA_VERSION;
        let ghost all = pair_views(self.platform_defaults@);
        let mut kept: Vec<(String, String)> = Vec::new();
        let mut i: usize = 0;
        while i < self.platform_defaults.len()
            invariant
                i <= self.platform_defaults.len(),
                all == pair_views(self.platform_defaults@),
                pair_views(kept@) == spoken(all.take(i as int)),
            decreases self.platform_defaults.len() - i,
        {
            let k = self.platform_defaults[i].0.clone();
            let v = self.platform_defaults[i].1.clone();
            proof {
                assert(all.take(i as int + 1).drop_last() =~= all.take(i as int));
                assert(all.take(i as int + 1).last() == (k@, v@));
            }
            let ghost before = kept@;
            if !is_blank(v.as_str()) {
                kept.push((k, v));
                assert(pair_views(kept@) =~= pair_views(before).push(all[i as int]));
            }
            i = i + 1;
        }
        assert(all.take(all.len() as int) =~= all);
        self.platform_defaults = kept;
        proof {
            lemma_spoken_by_name(all);
        }
    }
}

proof fn lemma_spoken_member(s: Seq<(Seq<char>, Seq<char>)>, i: int) -> (j: int)
    requires
        0 <= i < spoken(s).len(),
    ensures
        0 <= j < s.len(),
        s[j] == spoken(s)[i],
        !text::blank(spoken(s)[i].1),
    decreases s.len(),
{
    if text::blank(s.last().1) {
        lemma_spoken_member(s.drop_last(), i)
    } else if i == spoken(s).len() - 1 {
        s.len() - 1
    } else {
        lemma_spoken_member(s.drop_last(), i)
    }
}

proof fn lemma_spoken_by_name(s: Seq<(Seq<char>, Seq<char>)>)
    requires
        by_name(s),
    ensures
        by_name(spoken(s)),
    decreases s.len(),
{
    if s.len() > 0 {
        let init = s.drop_last();
        assert forall|i: int, j: int| 0 <= i < j < init.len() implies in_name_order(
            #[trigger] init[i],
            #[trigger] init[j],
        ) by {
            assert(init[i] == s[i] && init[j] == s[j]);
        }
        lemma_spoken_by_name(init);
        if !text::blank(s.last().1) {
            let all = spoken(s);
            assert forall|i: int, j: int| 0 <= i < j < all.len() implies in_name_order(
                #[trigger] all[i],
                #[trigger] all[j],
            ) by {
                if j == all.len() - 1 {
                    let k = lemma_spoken_member(init, i);
                    assert(init[k] == s[k]);
                    assert(in_name_order(s[k], s[s.len() - 1]));
                } else {
                    assert(all[i] == spoken(init)[i] && all[j] == spoken(init)[j]);
                }
            }
        }
    }
}

/// After normalising, no platform text is blank, and normalising again changes
/// nothing.
pub proof fn template_normalize_is_idempotent(b: TemplateBodyView)
    ensures
        forall|i: int|
            0 <= i < b.normal().platform_defaults.len() ==> !text::blank(
                (#[trigger] b.normal().platform_defaults[i]).1,
            ),
        b.normal().normal() == b.normal(),
{
    let s = b.platform_defaults;
    assert forall|i: int| 0 <= i < spoken(s).len() implies !text::blank(
        (#[trigger] spoken(s)[i]).1,
    ) by {
        let j = lemma_spoken_member(s, i);
    }
    lemma_spoken_fixed(spoken(s));
}

proof fn lemma_spoken_fixed(s: Seq<(Seq<char>, Seq<char>)>)
    requires
        forall|i: int| 0 <= i < s.len() ==> !text::blank((#[trigger] s[i]).1),
    ensures
        spoken(s) == s,
    decreases s.len(),
{
    if s.len() > 0 {
        assert forall|i: int| 0 <= i < s.drop_last().len() implies !text::blank(
            (#[trigger] s.drop_last()[i]).1,
        ) by {
            assert(s.drop_last()[i] == s[i]);
        }
        lemma_spoken_fixed(s.drop_last());
        assert(s.drop_last().push(s.last()) =~= s);
    }
}

/// A template of a workspace.
#[derive(Debug, PartialEq, Eq, Clone)]
pub struct Template {
    pub id: String,
    pub workspace_id: String,
    pub name: String,
    pub body: TemplateBody,
    pub created_at: i64,
}

/// Normalising keeps the text and every platform text that is not blank, in their
/// order, and nothing else; and the body is of the first version.
pub proof fn a_template_keeps_what_it_says(b: TemplateBodyView, x: (Seq<char>, Seq<char>))
    ensures
        b.normal().text == b.text,
        b.normal().schema_version == 1,
        b.normal().platform_defaults.contains(x) <==> b.platform_defaults.contains(x)
            && !text::blank(x.1),
{
    lemma_spoken_holds(b.platform_defaults, x);
}

proof fn lemma_spoken_holds(s: Seq<(Seq<char>, Seq<char>)>, x: (Seq<char>, Seq<char>))
    ensures
        spoken(s).contains(x) <==> s.contains(x) && !text::blank(x.1),
    decreases s.len(),
{
    if spoken(s).contains(x) {
        let i = choose|i: int| 0 <= i < spoken(s).len() && spoken(s)[i] == x;
        let j = lemma_spoken_member(s, i);
        assert(s[j] == x);
    }
    if s.contains(x) && !text::blank(x.1) {
        let i = choose|i: int| 0 <= i < s.len() && s[i] == x;
        let init = s.drop_last();
        lemma_spoken_holds(init, x);
        if i < s.len() - 1 {
            assert(init[i] == x);
            let k = choose|k: int| 0 <= k < spoken(init).len() && spoken(init)[k] == x;
            assert(spoken(s)[k] == x);
        } else {
            assert(spoken(s)[spoken(s).len() - 1] == x);
        }
    }
}

/// Blank platform texts are dropped part by part: the order of the others stays.
pub proof fn a_template_keeps_the_order(
    a: Seq<(Seq<char>, Seq<char>)>,
    b: Seq<(Seq<char>, Seq<char>)>,
)
    ensures
        spoken(a + b) == spoken(a) + spoken(b),
    decreases b.len(),
{
    if b.len() == 0 {
        assert(a + b =~= a);
        assert(spoken(a) + spoken(b) =~= spoken(a));
    } else {
        assert((a + b).drop_last() =~= a + b.drop_last());
        a_template_keeps_the_order(a, b.drop_last());
        assert(spoken(a + b) =~= spoken(a) + spoken(b));
    }
}

/// A blob that is no object is the text of a plain template; of an object the fields
/// count, and where they cannot be had, the template is empty.
pub proof fn a_template_blob_reads_as_its_fields(
    raw: Seq<char>,
    object: bool,
    fields: Option<TemplateBodyView>,
)
    ensures
        !object ==> decoded_template(raw, object, fields).text == raw && decoded_template(
            raw,
            object,
            fields,
        ).platform_defaults.len() == 0,
        object && fields is None ==> decoded_template(raw, object, fields).text.len() == 0
            && decoded_template(raw, object, fields).platform_defaults.len() == 0,
        object && fields is Some ==> decoded_template(raw, object, fields).text == fields->0.text
            && decoded_template(raw, object, fields).platform_defaults == spoken(
            fields->0.platform_defaults,
        ),
        decoded_template(raw, object, fields).schema_version == 1,
{
}

} // verus!
