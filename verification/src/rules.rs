//! Window rules: which `windowrule` entries match a newly mapped window and
//! what they ask for.
use vstd::prelude::*;
use crate::geometry::{div_trunc, fits_i32, Point, Rect, Size};
use crate::kdl_doc::ConfigNumber;
use crate::text::chars_of;

verus! {

/// What `str::to_lowercase` gives for `s` (Unicode lower-casing, a fixed
/// function of the text).
pub uninterp spec fn lowercase_of(s: Seq<char>) -> Seq<char>;

/// Calls `str::to_lowercase`. The contract claims only that the result is
/// a function of the text; the Unicode case tables are not stated.
#[verifier::external_body]
fn to_lowercase(s: &str) -> (r: String)
    ensures
        r@ == lowercase_of(s@),
{
    s.to_lowercase()
}

/// Match + actions for a newly mapped window.
#[derive(Clone, Debug)]
pub struct WindowRule {
    /// Substring of the app id to match (case-insensitive); empty = any.
    pub app_id: String,
    /// Substring of the title to match (case-insensitive); empty = any.
    pub title: String,
    pub float: bool,
    /// Opacity to apply, as the config wrote it (the compositor clamps it
    /// to 0..=1).
    pub opacity: Option<ConfigNumber>,
    /// Workspace (1-based, 1..=9) to move the window to.
    pub workspace: Option<u8>,
    pub center: bool,
}

/// The abstract content of a [`WindowRule`].
pub ghost struct RuleView {
    pub app_id: Seq<char>,
    pub title: Seq<char>,
    pub float: bool,
    pub opacity: Option<ConfigNumber>,
    pub workspace: Option<u8>,
    pub center: bool,
}

impl View for WindowRule {
    type V = RuleView;

    open spec fn view(&self) -> RuleView {
        RuleView {
            app_id: self.app_id@,
            title: self.title@,
            float: self.float,
            opacity: self.opacity,
            workspace: self.workspace,
            center: self.center,
        }
    }
}

/// `needle` occurs in `hay` as a contiguous run.
pub open spec fn contains_sub(hay: Seq<char>, needle: Seq<char>) -> bool {
    exists|i: int| 0 <= i <= hay.len() - needle.len() && #[trigger] hay.subrange(i, i + needle.len()) == needle
}

/// Whether `needle` occurs in `hay` (`str::contains`).
pub fn contains_chars(hay: &[char], needle: &[char]) -> (b: bool)
    ensures
        b == contains_sub(hay@, needle@),
{
    if needle.len() > hay.len() {
        return false;
    }
    let last = hay.len() - needle.len();
    let mut i: usize = 0;
    while i <= last
        invariant
            last == hay@.len() - needle@.len(),
            i <= last + 1,
            forall|k: int| 0 <= k < i ==> #[trigger] hay@.subrange(k, k + needle@.len()) != needle@,
        decreases last + 1 - i,
    {
        let mut j: usize = 0;
        let mut same = true;
        while j < needle.len()
            invariant
                j <= needle@.len(),
                i + needle@.len() <= hay@.len(),
                hay@.len() == hay.len(),
                needle@.len() == needle.len(),
                same == (forall|m: int| 0 <= m < j ==> hay@[i + m] == needle@[m]),
            decreases needle@.len() - j,
        {
            if hay[i + j] != needle[j] {
                same = false;
            }
            j = j + 1;
        }
        if same {
            proof {
                assert(hay@.subrange(i as int, i + needle@.len()) =~= needle@);
            }
            return true;
        }
        proof {
            assert(hay@.subrange(i as int, i + needle@.len()) != needle@) by {
                let m = choose|m: int| 0 <= m < needle@.len() && hay@[i + m] != needle@[m];
                assert(hay@.subrange(i as int, i + needle@.len())[m] == hay@[i + m]);
            }
        }
        if i == last {
            return false;
        }
        i = i + 1;
    }
    false
}

/// What the rules ask for a window, and whether any matched.
#[derive(Clone, Copy, Debug, PartialEq, Eq, Structural)]
pub struct RuleOutcome {
    /// Some rule matched.
    pub any_match: bool,
    /// Some rule names an app id or title (so the window's identity matters).
    pub needs_identity: bool,
    pub want_float: bool,
    pub want_center: bool,
    /// The opacity of the last matching rule that sets one.
    pub opacity: Option<ConfigNumber>,
    /// The workspace of the last matching rule that sets one.
    pub workspace: Option<u8>,
}

/// A rule names an app id or a title.
pub open spec fn has_matcher(r: WindowRule) -> bool {
    r.app_id@.len() > 0 || r.title@.len() > 0
}

/// Whether `r` matches a window with lower-cased app id `app_l` and title
/// `title_l`; a rule with a matcher needs the window's identity (some app id
/// or title) to be known.
pub open spec fn rule_matches(r: WindowRule, app_l: Seq<char>, title_l: Seq<char>, identity_ready: bool) -> bool {
    &&& (r.app_id@.len() == 0 || contains_sub(app_l, lowercase_of(r.app_id@)))
    &&& (r.title@.len() == 0 || contains_sub(title_l, lowercase_of(r.title@)))
    &&& !(has_matcher(r) && !identity_ready)
}

/// The rules folded in order.
pub open spec fn rules_outcome(
    rules: Seq<WindowRule>,
    app_l: Seq<char>,
    title_l: Seq<char>,
    identity_ready: bool,
) -> RuleOutcome
    decreases rules.len(),
{
    if rules.len() == 0 {
        RuleOutcome {
            any_match: false,
            needs_identity: false,
            want_float: false,
            want_center: false,
            opacity: None,
            workspace: None,
        }
    } else {
        let o = rules_outcome(rules.drop_last(), app_l, title_l, identity_ready);
        let r = rules.last();
        let needs = o.needs_identity || has_matcher(r);
        if rule_matches(r, app_l, title_l, identity_ready) {
            RuleOutcome {
                any_match: true,
                needs_identity: needs,
                want_float: o.want_float || r.float,
                want_center: o.want_center || r.center,
                opacity: if r.opacity is Some {
                    r.opacity
                } else {
                    o.opacity
                },
                workspace: if r.workspace is Some {
                    r.workspace
                } else {
                    o.workspace
                },
            }
        } else {
            RuleOutcome { needs_identity: needs, ..o }
        }
    }
}

/// Evaluate every rule for a window with this app id and title.
pub fn evaluate_rules(rules: &[WindowRule], app_id: &str, title: &str) -> (o: RuleOutcome)
    ensures
        o == rules_outcome(
            rules@,
            lowercase_of(app_id@),
            lowercase_of(title@),
            app_id@.len() > 0 || title@.len() > 0,
        ),
{
    let app_s = to_lowercase(app_id);
    let title_s = to_lowercase(title);
    let app_l = chars_of(app_s.as_str());
    let title_l = chars_of(title_s.as_str());
    let ready = chars_of(app_id).len() > 0 || chars_of(title).len() > 0;
    let mut o = RuleOutcome {
        any_match: false,
        needs_identity: false,
        want_float: false,
        want_center: false,
        opacity: None,
        workspace: None,
    };
    let mut i: usize = 0;
    while i < rules.len()
        invariant
            i <= rules@.len(),
            app_l@ == lowercase_of(app_id@),
            title_l@ == lowercase_of(title@),
            ready == (app_id@.len() > 0 || title@.len() > 0),
            o == rules_outcome(rules@.take(i as int), app_l@, title_l@, ready),
        decreases rules@.len() - i,
    {
        let r = &rules[i];
        proof {
            assert(rules@.take(i + 1).drop_last() =~= rules@.take(i as int));
        }
        let rule_app = chars_of(r.app_id.as_str());
        let rule_title = chars_of(r.title.as_str());
        let matcher = rule_app.len() > 0 || rule_title.len() > 0;
        let app_ok = if rule_app.len() == 0 {
            true
        } else {
            let want = to_lowercase(r.app_id.as_str());
            let want_c = chars_of(want.as_str());
            contains_chars(app_l.as_slice(), want_c.as_slice())
        };
        let title_ok = if rule_title.len() == 0 {
            true
        } else {
            let want = to_lowercase(r.title.as_str());
            let want_c = chars_of(want.as_str());
            contains_chars(title_l.as_slice(), want_c.as_slice())
        };
        let needs = o.needs_identity || matcher;
        if app_ok && title_ok && !(matcher && !ready) {
            o = RuleOutcome {
                any_match: true,
                needs_identity: needs,
                want_float: o.want_float || r.float,
                want_center: o.want_center || r.center,
                opacity: if r.opacity.is_some() {
                    r.opacity
                } else {
                    o.opacity
                },
                workspace: if r.workspace.is_some() {
                    r.workspace
                } else {
                    o.workspace
                },
            };
        } else {
            o = RuleOutcome { needs_identity: needs, ..o };
        }
        i = i + 1;
    }
    proof {
        assert(rules@.take(rules@.len() as int) =~= rules@);
    }
    o
}

/// What applying the rules to a window does, given whether the rules were
/// already settled for it.
#[derive(Clone, Copy, Debug, PartialEq, Eq, Structural)]
pub struct RuleVerdict {
    /// Opacity to set (always applied, also for settled windows).
    pub opacity: Option<ConfigNumber>,
    /// Apply the float/center/workspace actions of the outcome.
    pub apply: bool,
    /// Mark the rules as settled for this window.
    pub mark_done: bool,
}

/// Settled windows only get their opacity; a window no rule matches is
/// settled unless a matcher waits for its identity; a matched one gets the
/// actions and is settled.
pub open spec fn verdict_spec(o: RuleOutcome, done: bool, identity_ready: bool) -> RuleVerdict {
    if done {
        RuleVerdict { opacity: o.opacity, apply: false, mark_done: false }
    } else if !o.any_match {
        RuleVerdict {
            opacity: o.opacity,
            apply: false,
            mark_done: !(o.needs_identity && !identity_ready),
        }
    } else {
        RuleVerdict { opacity: o.opacity, apply: true, mark_done: true }
    }
}

/// See [`verdict_spec`].
pub fn rule_verdict(o: RuleOutcome, done: bool, identity_ready: bool) -> (v: RuleVerdict)
    ensures
        v == verdict_spec(o, done, identity_ready),
{
    if done {
        RuleVerdict { opacity: o.opacity, apply: false, mark_done: false }
    } else if !o.any_match {
        RuleVerdict {
            opacity: o.opacity,
            apply: false,
            mark_done: !(o.needs_identity && !identity_ready),
        }
    } else {
        RuleVerdict { opacity: o.opacity, apply: true, mark_done: true }
    }
}

/// The 0-based workspace of a rule's 1-based one.
pub fn rule_workspace_index(ws: u8) -> (i: usize)
    ensures
        i == (if ws == 0 { 0 } else { ws - 1 }),
{
    if ws == 0 {
        0
    } else {
        (ws - 1) as usize
    }
}

/// Where a centered window of `size` goes on an output with geometry
/// `geo`: the spare room split evenly (none when it does not fit).
pub open spec fn centered_spec(geo: Rect, size: Size) -> Point {
    let dw = if geo.size.w - size.w > 0 { geo.size.w - size.w } else { 0 };
    let dh = if geo.size.h - size.h > 0 { geo.size.h - size.h } else { 0 };
    Point { x: (geo.loc.x + div_trunc(dw, 2)) as i32, y: (geo.loc.y + div_trunc(dh, 2)) as i32 }
}

/// See [`centered_spec`].
pub fn centered_location(geo: Rect, size: Size) -> (p: Point)
    requires
        fits_i32(geo.size.w - size.w),
        fits_i32(geo.size.h - size.h),
        fits_i32(geo.loc.x + div_trunc(if geo.size.w - size.w > 0 { geo.size.w - size.w } else { 0 }, 2)),
        fits_i32(geo.loc.y + div_trunc(if geo.size.h - size.h > 0 { geo.size.h - size.h } else { 0 }, 2)),
    ensures
        p == centered_spec(geo, size),
{
    let dw = if geo.size.w - size.w > 0 { geo.size.w - size.w } else { 0 };
    let dh = if geo.size.h - size.h > 0 { geo.size.h - size.h } else { 0 };
    Point { x: geo.loc.x + dw / 2, y: geo.loc.y + dh / 2 }
}

} // verus!

verus! {

/// Later matching rules override earlier ones for opacity and workspace;
/// float and center accumulate; a rule that does not match changes
/// nothing but whether an identity is needed.
pub proof fn lemma_later_rule_wins(
    rules: Seq<WindowRule>,
    r: WindowRule,
    app_l: Seq<char>,
    title_l: Seq<char>,
    ready: bool,
)
    ensures
        ({
            let before = rules_outcome(rules, app_l, title_l, ready);
            let after = rules_outcome(rules.push(r), app_l, title_l, ready);
            &&& rule_matches(r, app_l, title_l, ready) ==> {
                &&& after.any_match
                &&& after.opacity == (if r.opacity is Some { r.opacity } else { before.opacity })
                &&& after.workspace == (if r.workspace is Some { r.workspace } else { before.workspace })
                &&& after.want_float == (before.want_float || r.float)
                &&& after.want_center == (before.want_center || r.center)
            }
            &&& !rule_matches(r, app_l, title_l, ready) ==> after == RuleOutcome {
                needs_identity: before.needs_identity || has_matcher(r),
                ..before
            }
        }),
{
    assert(rules.push(r).drop_last() =~= rules);
}

} // verus!
