//! Which release is offered to the user. Releases are linked, never installed.

use vstd::prelude::*;

use crate::config::UpdateChannel;
use crate::number;
use crate::push;
use crate::push::HttpStatus;
use crate::search;
use crate::text;
use crate::text::{
    find_text, has_prefix, has_text, join2, same, text_from, without_prefix,
};
use crate::web;
use crate::web::url_place;

verus! {

/// The version of the program.
pub const APP_VERSION: &'static str = "0.1.0";

/// How long an answer is good, in seconds.
pub const CHECK_INTERVAL_SECS: u64 = 86_400;

pub const RELEASES_PATH: &'static str = "/Questory-Labs/qMonitor/releases";

pub const API_LATEST: &'static str = "https://api.github.com/repos/Questory-Labs/qMonitor/releases/latest";

pub const API_LIST: &'static str = "https://api.github.com/repos/Questory-Labs/qMonitor/releases?per_page=30";

/// A release that can be offered.
#[derive(Debug)]
pub struct PendingUpdate {
    pub tag: String,
    pub version: String,
    pub html_url: String,
}

impl Clone for PendingUpdate {
    fn clone(&self) -> (r: Self)
        ensures
            r == *self,
    {
        PendingUpdate {
            tag: self.tag.clone(),
            version: self.version.clone(),
            html_url: self.html_url.clone(),
        }
    }
}

/// The mathematical value of a `PendingUpdate`.
#[verifier::ext_equal]
pub struct UpdateView {
    pub tag: Seq<char>,
    pub version: Seq<char>,
    pub html_url: Seq<char>,
}

impl View for PendingUpdate {
    type V = UpdateView;

    open spec fn view(&self) -> UpdateView {
        UpdateView { tag: self.tag@, version: self.version@, html_url: self.html_url@ }
    }
}

/// The value of an optional release.
pub open spec fn opt_update(u: Option<PendingUpdate>) -> Option<UpdateView> {
    match u {
        Some(p) => Some(p@),
        None => None,
    }
}

/// What is remembered of the last check.
#[derive(Debug)]
pub struct UpdateCheckCache {
    pub last_checked_at: u64,
    pub last_channel: Option<UpdateChannel>,
    pub dismissed_key: Option<String>,
    pub last_known: Option<PendingUpdate>,
}

impl Default for UpdateCheckCache {
    fn default() -> (r: Self)
        ensures
            r == (UpdateCheckCache {
                last_checked_at: 0,
                last_channel: None,
                dismissed_key: None,
                last_known: None,
            }),
    {
        UpdateCheckCache {
            last_checked_at: 0,
            last_channel: None,
            dismissed_key: None,
            last_known: None,
        }
    }
}

/// A release as GitHub tells it.
#[derive(Debug)]
pub struct GhRelease {
    pub tag_name: String,
    pub html_url: String,
    pub prerelease: bool,
}

/// The version of the program.
pub fn installed_version() -> (r: &'static str)
    ensures
        r@ == APP_VERSION@,
{
    APP_VERSION
}

// ---------------------------------------------------------------------------
// Tags and versions
// ---------------------------------------------------------------------------

/// The version in a tag: the tag without a leading `v`.
pub open spec fn tag_version(tag: Seq<char>) -> Seq<char> {
    match text::strip_prefix(tag, "v"@) {
        Some(rest) => rest,
        None => tag,
    }
}

/// The version in a tag.
pub fn version_from_tag(tag: &str) -> (r: String)
    ensures
        r@ == tag_version(tag@),
{
    match without_prefix(tag, "v") {
        Some(rest) => rest,
        None => tag.to_owned(),
    }
}

/// A tag of a preview: a version, the mark of a preview, and a commit without a
/// slash.
pub open spec fn canary_tag(tag: Seq<char>) -> bool {
    let rest = tag_version(tag);
    match text::find(rest, "-canary."@) {
        Some(i) => {
            let sha = rest.skip(i + "-canary."@.len());
            i > 0 && sha.len() > 0 && !text::contains(sha, "/"@)
        },
        None => false,
    }
}

/// Whether this is the tag of a preview.
pub fn is_canary_tag(tag: &str) -> (r: bool)
    ensures
        r == canary_tag(tag@),
{
    let rest = version_from_tag(tag);
    let mark = "-canary.";
    let n: usize = mark.unicode_len();
    let total: usize = rest.as_str().unicode_len();
    match find_text(rest.as_str(), mark) {
        Some(i) => {
            assert(i + n <= total);
            let sha = text_from(rest.as_str(), i + n);
            i > 0 && sha.as_str().unicode_len() > 0 && !has_text(sha.as_str(), "/")
        },
        None => false,
    }
}

/// The version of three numbers and nothing more.
pub open spec fn plain_version(n: (u64, u64, u64)) -> Seq<char> {
    number::decimal(n.0 as nat) + "."@ + number::decimal(n.1 as nat) + "."@ + number::decimal(
        n.2 as nat,
    )
}

/// A text that begins as a preview of the version with these numbers.
pub open spec fn preview_of(s: Seq<char>, n: (u64, u64, u64)) -> bool {
    text::starts_with(s, plain_version(n) + "-"@)
}

/// The first numbers are those of a later version.
pub open spec fn later(x: (u64, u64, u64), y: (u64, u64, u64)) -> bool {
    x.0 > y.0 || x.0 == y.0 && (x.1 > y.1 || x.1 == y.1 && x.2 > y.2)
}

/// `newer` is how versions compare by their numbers: a version of three numbers
/// comes after those with lesser numbers, and after each of its own previews.
pub open spec fn by_numbers(a: Seq<char>, b: Seq<char>, newer: Option<bool>) -> bool {
    forall|x: (u64, u64, u64), y: (u64, u64, u64)|
        #![trigger plain_version(x), plain_version(y)]
        {
            &&& a == plain_version(x) && b == plain_version(y) ==> newer == Some(later(x, y))
            &&& newer is Some && a == plain_version(x) && preview_of(b, y) ==> newer == Some(
                !later(y, x),
            )
            &&& newer is Some && preview_of(a, x) && b == plain_version(y) ==> newer == Some(
                later(x, y),
            )
        }
}

/// Whether the first version is greater than the second; none where one of them
/// is no version.
pub uninterp spec fn semver_newer(a: Seq<char>, b: Seq<char>) -> Option<bool>;

/// `semver::Version::parse` of both texts, and `>` of what it gives: a function of
/// the texts. A version is not greater than itself, and of two versions not each
/// is greater than the other. Three numbers with dots between them are a version;
/// such versions compare by their numbers, and each is greater than a version
/// with the same numbers and a hyphen behind them. How previews of the same
/// numbers compare is not stated.
#[verifier::external_body]
fn semver_greater(a: &str, b: &str) -> (r: Option<bool>)
    ensures
        r == semver_newer(a@, b@),
        a@ == b@ ==> r != Some(true),
        r == Some(true) ==> semver_newer(b@, a@) == Some(false),
        by_numbers(a@, b@, r),
{
    let x = semver::Version::parse(a).ok()?;
    let y = semver::Version::parse(b).ok()?;
    Some(x > y)
}

/// The release with this tag is newer than the installed version.
pub open spec fn newer_stable(tag: Seq<char>, installed: Seq<char>) -> bool {
    semver_newer(tag_version(tag), tag_version(installed)) == Some(true)
}

/// Whether the release with this tag is newer than the installed version; not
/// where one of them is no version.
pub fn is_newer_stable(remote_tag: &str, installed: &str) -> (r: bool)
    ensures
        r == newer_stable(remote_tag@, installed@),
        tag_version(remote_tag@) == tag_version(installed@) ==> !r,
        r ==> !newer_stable(installed@, remote_tag@),
        by_numbers(
            tag_version(remote_tag@),
            tag_version(installed@),
            semver_newer(tag_version(remote_tag@), tag_version(installed@)),
        ),
{
    let a = version_from_tag(remote_tag);
    let b = version_from_tag(installed);
    match semver_greater(a.as_str(), b.as_str()) {
        Some(newer) => newer,
        None => false,
    }
}

/// The preview with this tag is another one than the installed version.
pub open spec fn newer_canary(tag: Seq<char>, installed: Seq<char>) -> bool {
    tag_version(tag) != installed
}

/// Whether the preview with this tag is another one than the installed version.
pub fn is_newer_canary(remote_tag: &str, installed: &str) -> (r: bool)
    ensures
        r == newer_canary(remote_tag@, installed@),
{
    let a = version_from_tag(remote_tag);
    !same(a.as_str(), installed)
}

/// The release is an update, given how its version compares.
pub open spec fn update_for(
    channel: UpdateChannel,
    tag: Seq<char>,
    installed: Seq<char>,
) -> bool {
    match channel {
        UpdateChannel::Stable => newer_stable(tag, installed),
        UpdateChannel::Canary => newer_canary(tag, installed),
    }
}

/// Whether the release with this tag is an update.
pub fn is_update(channel: UpdateChannel, remote_tag: &str, installed: &str) -> (r: bool)
    ensures
        r == update_for(channel, remote_tag@, installed@),
        tag_version(remote_tag@) == installed@ && tag_version(installed@) == installed@ ==> !r,
        channel == UpdateChannel::Stable ==> by_numbers(
            tag_version(remote_tag@),
            tag_version(installed@),
            semver_newer(tag_version(remote_tag@), tag_version(installed@)),
        ),
{
    match channel {
        UpdateChannel::Stable => is_newer_stable(remote_tag, installed),
        UpdateChannel::Canary => is_newer_canary(remote_tag, installed),
    }
}

// ---------------------------------------------------------------------------
// Addresses
// ---------------------------------------------------------------------------

/// The place is one of the program's releases on GitHub.
pub open spec fn release_place(
    scheme: Seq<char>,
    host: Option<Seq<char>>,
    path: Seq<char>,
) -> bool {
    &&& scheme == "https"@
    &&& host == Some("github.com"@)
    &&& path == RELEASES_PATH@ || text::starts_with(path, RELEASES_PATH@ + "/"@)
}

/// Whether the place is one of the program's releases on GitHub.
pub fn is_release_place(scheme: &str, host: &Option<String>, path: &str) -> (r: bool)
    ensures
        r == release_place(scheme@, text::opt_view(*host), path@),
{
    let on_github = match host {
        Some(h) => same(h.as_str(), "github.com"),
        None => false,
    };
    let below = join2(RELEASES_PATH, "/");
    same(scheme, "https") && on_github && (same(path, RELEASES_PATH) || has_prefix(
        path,
        below.as_str(),
    ))
}

/// The address leads to the program's releases on GitHub.
pub open spec fn allowed_url(url: Seq<char>) -> bool {
    web::url_refusal(url) is None && release_place(
        web::url_scheme(url),
        web::url_host(url),
        web::url_path(url),
    )
}

/// Whether the address leads to the program's releases on GitHub.
pub fn is_allowed_release_url(url: &str) -> (r: bool)
    ensures
        r == allowed_url(url@),
{
    match url_place(url) {
        Some((scheme, host, path)) => is_release_place(scheme.as_str(), &host, path.as_str()),
        None => false,
    }
}

/// Whether an address may be opened; why not, where it may not.
pub fn check_release_url(url: &str) -> (r: Result<(), String>)
    ensures
        match r {
            Ok(()) => allowed_url(url@),
            Err(e) => !allowed_url(url@) && e@
                == "refusing to open a non-qMonitor GitHub release URL"@,
        },
{
    if is_allowed_release_url(url) {
        Ok(())
    } else {
        Err("refusing to open a non-qMonitor GitHub release URL".to_owned())
    }
}

// ---------------------------------------------------------------------------
// Releases
// ---------------------------------------------------------------------------

/// A release as it is offered.
pub open spec fn offered(r: GhRelease) -> UpdateView {
    UpdateView {
        tag: r.tag_name@,
        version: tag_version(r.tag_name@),
        html_url: r.html_url@,
    }
}

fn pending_from_release(release: &GhRelease) -> (r: PendingUpdate)
    ensures
        r@ == offered(*release),
{
    PendingUpdate {
        tag: release.tag_name.clone(),
        version: version_from_tag(release.tag_name.as_str()),
        html_url: release.html_url.clone(),
    }
}

/// A release that is no preview.
pub open spec fn is_stable(r: GhRelease) -> bool {
    !r.prerelease && !canary_tag(r.tag_name@)
}

/// A release that is a preview.
pub open spec fn is_preview(r: GhRelease) -> bool {
    r.prerelease && canary_tag(r.tag_name@)
}

/// The latest release, unless it is a preview.
pub fn pick_stable(release: &GhRelease) -> (r: Option<PendingUpdate>)
    ensures
        release.prerelease ==> r is None,
        canary_tag(release.tag_name@) ==> r is None,
        !release.prerelease && !canary_tag(release.tag_name@) ==> r is Some,
        r is Some ==> {
            &&& r->0.tag@ == release.tag_name@
            &&& tags(r->0.tag@, r->0.version@)
            &&& r->0.html_url@ == release.html_url@
        },
        opt_update(r) == (if is_stable(*release) {
            Some(offered(*release))
        } else {
            None
        }),
{
    if release.prerelease || is_canary_tag(release.tag_name.as_str()) {
        return None;
    }
    proof {
        law_version_of_tag(release.tag_name@, tag_version(release.tag_name@));
    }
    Some(pending_from_release(release))
}

/// The first preview of a list.
pub open spec fn first_preview(releases: Seq<GhRelease>) -> Option<UpdateView> {
    match search::first_where(releases, |r: GhRelease| is_preview(r)) {
        Some(i) => Some(offered(releases[i])),
        None => None,
    }
}

/// The first preview of a list.
pub fn pick_canary(releases: &[GhRelease]) -> (r: Option<PendingUpdate>)
    ensures
        match r {
            Some(p) => exists|i: int|
                {
                    &&& 0 <= i < releases@.len()
                    &&& (#[trigger] releases@[i]).prerelease
                    &&& canary_tag(releases@[i].tag_name@)
                    &&& p.tag@ == releases@[i].tag_name@
                    &&& tags(p.tag@, p.version@)
                    &&& p.html_url@ == releases@[i].html_url@
                    &&& forall|j: int|
                        0 <= j < i && (#[trigger] releases@[j]).prerelease ==> !canary_tag(
                            releases@[j].tag_name@,
                        )
                },
            None => forall|j: int|
                0 <= j < releases@.len() && (#[trigger] releases@[j]).prerelease ==> !canary_tag(
                    releases@[j].tag_name@,
                ),
        },
        opt_update(r) == first_preview(releases@),
{
    let ghost f = |r: GhRelease| is_preview(r);
    let mut i: usize = 0;
    while i < releases.len()
        invariant
            i <= releases@.len(),
            f == (|r: GhRelease| is_preview(r)),
            forall|j: int| 0 <= j < i ==> !f(#[trigger] releases@[j]),
        decreases releases.len() - i,
    {
        if releases[i].prerelease && is_canary_tag(releases[i].tag_name.as_str()) {
            proof {
                search::lemma_first_is(releases@, f, i as int);
                law_version_of_tag(
                    releases@[i as int].tag_name@,
                    tag_version(releases@[i as int].tag_name@),
                );
                assert(releases@[i as int].prerelease);
                assert forall|j: int|
                    0 <= j < i && (#[trigger] releases@[j]).prerelease implies !canary_tag(
                    releases@[j].tag_name@,
                ) by {
                    assert(!f(releases@[j]));
                }
            }
            return Some(pending_from_release(&releases[i]));
        }
        i = i + 1;
    }
    proof {
        search::lemma_first_where(releases@, f);
        assert forall|j: int|
            0 <= j < releases@.len() && (#[trigger] releases@[j]).prerelease implies !canary_tag(
            releases@[j].tag_name@,
        ) by {
            assert(!f(releases@[j]));
        }
    }
    None
}

/// What GitHub's answer to the question for the latest release is worth.
#[derive(Debug)]
pub enum ReleaseReply {
    /// There is no release.
    Nothing,
    /// The answer is to be read.
    Read,
    /// The question failed.
    Failed(String),
}

/// What the status of the answer to the question for the latest release says.
pub fn latest_reply(status: &HttpStatus) -> (r: ReleaseReply)
    ensures
        match r {
            ReleaseReply::Nothing => status.code == 404,
            ReleaseReply::Read => push::is_success(status.code),
            ReleaseReply::Failed(e) => status.code != 404 && !push::is_success(status.code)
                && e@ == "GitHub latest release HTTP "@ + status.shown@,
        },
{
    if status.code == 404 {
        ReleaseReply::Nothing
    } else if status.succeeded() {
        ReleaseReply::Read
    } else {
        ReleaseReply::Failed(join2("GitHub latest release HTTP ", status.shown.as_str()))
    }
}

/// What the status of the answer to the question for all releases says.
pub fn list_reply(status: &HttpStatus) -> (r: Result<(), String>)
    ensures
        match r {
            Ok(()) => push::is_success(status.code),
            Err(e) => !push::is_success(status.code) && e@ == "GitHub releases HTTP "@
                + status.shown@,
        },
{
    if status.succeeded() {
        Ok(())
    } else {
        Err(join2("GitHub releases HTTP ", status.shown.as_str()))
    }
}

// ---------------------------------------------------------------------------
// Checks
// ---------------------------------------------------------------------------

/// The last check was of the same channel and is still good.
pub open spec fn still_good(
    cache: UpdateCheckCache,
    channel: UpdateChannel,
    force: bool,
    now: u64,
) -> bool {
    let age = if now >= cache.last_checked_at {
        now - cache.last_checked_at
    } else {
        0
    };
    !force && cache.last_channel == Some(channel) && age < CHECK_INTERVAL_SECS
}

/// Whether the last check is still good.
pub fn should_skip_network(
    cache: &UpdateCheckCache,
    channel: UpdateChannel,
    force: bool,
    now: u64,
) -> (r: bool)
    ensures
        r == still_good(*cache, channel, force, now),
{
    if force {
        return false;
    }
    match cache.last_channel {
        Some(c) => c == channel && now.saturating_sub(cache.last_checked_at) < CHECK_INTERVAL_SECS,
        None => false,
    }
}

/// The release is shown: the user has not dismissed it, and it is an update.
pub open spec fn shown(
    pending: Option<UpdateView>,
    channel: UpdateChannel,
    installed: Seq<char>,
    dismissed: Option<Seq<char>>,
) -> Option<UpdateView> {
    match pending {
        Some(p) => if dismissed == Some(p.tag) || !update_for(channel, p.tag, installed) {
            None
        } else {
            Some(p)
        },
        None => None,
    }
}

/// The release that is shown to the user, if any.
pub fn filter_pending(
    pending: Option<&PendingUpdate>,
    channel: UpdateChannel,
    installed: &str,
    dismissed_key: Option<&str>,
) -> (r: Option<PendingUpdate>)
    ensures
        opt_update(r) == shown(
            match pending {
                Some(p) => Some(p@),
                None => None,
            },
            channel,
            installed@,
            match dismissed_key {
                Some(d) => Some(d@),
                None => None,
            },
        ),
        r is Some && tag_version(installed@) == installed@ ==> tag_version(r->0@.tag)
            != installed@,
{
    let p = match pending {
        Some(p) => p,
        None => {
            return None;
        },
    };
    if let Some(d) = dismissed_key {
        if same(d, p.tag.as_str()) {
            return None;
        }
    }
    if !is_update(channel, p.tag.as_str(), installed) {
        return None;
    }
    Some(p.clone())
}

/// The release that is known is dismissed, if there is one; all else stays.
pub open spec fn dismissed_from(before: UpdateCheckCache, after: UpdateCheckCache) -> bool {
    &&& after == (UpdateCheckCache { dismissed_key: after.dismissed_key, ..before })
    &&& text::opt_view(after.dismissed_key) == (match before.last_known {
        Some(p) => Some(p.tag@),
        None => text::opt_view(before.dismissed_key),
    })
}

/// Dismisses the release that is known. Gives whether there is one.
pub fn dismiss(cache: &mut UpdateCheckCache) -> (r: bool)
    ensures
        r == (old(cache).last_known is Some),
        dismissed_from(*old(cache), *final(cache)),
        old(cache).last_known is Some ==> text::opt_view(final(cache).dismissed_key) == Some(
            old(cache).last_known->0.tag@,
        ),
        old(cache).last_known is None ==> *final(cache) == *old(cache),
        final(cache).last_known == old(cache).last_known,
        final(cache).last_checked_at == old(cache).last_checked_at,
        final(cache).last_channel == old(cache).last_channel,
{
    match &cache.last_known {
        Some(known) => {
            let tag = known.tag.clone();
            cache.dismissed_key = Some(tag);
            true
        },
        None => false,
    }
}

/// The release to show from what is remembered.
pub open spec fn remembered(
    cache: UpdateCheckCache,
    channel: UpdateChannel,
    installed: Seq<char>,
) -> Option<UpdateView> {
    shown(
        opt_update(cache.last_known),
        channel,
        installed,
        text::opt_view(cache.dismissed_key),
    )
}

/// How a check begins.
#[derive(Debug)]
pub enum CheckStep {
    /// This is the answer.
    Answer(Option<PendingUpdate>),
    /// GitHub is to be asked.
    Fetch,
}

fn remembered_update(cache: &UpdateCheckCache, channel: UpdateChannel, installed: &str) -> (r:
    Option<PendingUpdate>)
    ensures
        opt_update(r) == remembered(*cache, channel, installed@),
{
    let dismissed: Option<&str> = match &cache.dismissed_key {
        Some(d) => Some(d.as_str()),
        None => None,
    };
    let known: Option<&PendingUpdate> = match &cache.last_known {
        Some(p) => Some(p),
        None => None,
    };
    filter_pending(known, channel, installed, dismissed)
}

/// Begins a check: what is remembered answers it while it is good.
pub fn check_step(
    cache: &UpdateCheckCache,
    channel: UpdateChannel,
    force: bool,
    installed: &str,
    now: u64,
) -> (r: CheckStep)
    ensures
        match r {
            CheckStep::Answer(a) => still_good(*cache, channel, force, now) && opt_update(a)
                == remembered(*cache, channel, installed@),
            CheckStep::Fetch => !still_good(*cache, channel, force, now),
        },
{
    if should_skip_network(cache, channel, force, now) {
        CheckStep::Answer(remembered_update(cache, channel, installed))
    } else {
        CheckStep::Fetch
    }
}

/// What is remembered after a check that GitHub has answered.
pub open spec fn after_check(
    before: UpdateCheckCache,
    channel: UpdateChannel,
    fetched: Option<PendingUpdate>,
    now: u64,
) -> UpdateCheckCache {
    UpdateCheckCache {
        last_checked_at: now,
        last_channel: Some(channel),
        last_known: fetched,
        dismissed_key: before.dismissed_key,
    }
}

/// Ends a check with what GitHub has said: it is remembered, and the release to
/// show is given.
pub fn finish_check(
    cache: &mut UpdateCheckCache,
    channel: UpdateChannel,
    fetched: Option<PendingUpdate>,
    installed: &str,
    now: u64,
) -> (r: Option<PendingUpdate>)
    ensures
        *final(cache) == after_check(*old(cache), channel, fetched, now),
        opt_update(r) == remembered(*final(cache), channel, installed@),
{
    cache.last_checked_at = now;
    cache.last_channel = Some(channel);
    cache.last_known = fetched;
    remembered_update(&*cache, channel, installed)
}

/// What a check has brought answers the checks of the same channel that follow,
/// until the interval is over and unless one is forced; a check of the other
/// channel asks again.
pub proof fn law_check_is_remembered(
    before: UpdateCheckCache,
    channel: UpdateChannel,
    fetched: Option<PendingUpdate>,
    now: u64,
    next: UpdateChannel,
    force: bool,
    at: u64,
)
    requires
        now <= at,
    ensures
        still_good(after_check(before, channel, fetched, now), next, force, at) == (!force && next
            == channel && at < now + CHECK_INTERVAL_SECS),
{
}

/// The tag is that of this version: with a `v` before it, or the version itself,
/// which then begins with no `v`.
pub open spec fn tags(tag: Seq<char>, version: Seq<char>) -> bool {
    tag == seq!['v'] + version || tag == version && (version.len() == 0 || version[0] != 'v')
}

/// A tag is that of one version, and that is what is read from it.
pub proof fn law_version_of_tag(tag: Seq<char>, version: Seq<char>)
    ensures
        tags(tag, version) <==> tag_version(tag) == version,
{
    reveal_strlit("v");
    assert("v"@ =~= seq!['v']);
    if tag.len() > 0 {
        assert(tag.subrange(0, 1) =~= seq![tag[0]]);
        assert(tag.subrange(0, 1) == seq!['v'] <==> tag[0] == 'v') by {
            assert(seq![tag[0]][0] == tag[0] && seq!['v'][0] == 'v');
        }
        if tag[0] == 'v' {
            assert(tag =~= seq!['v'] + tag.skip(1));
        }
    }
    if tag == seq!['v'] + version {
        assert(tag[0] == 'v');
        assert(tag.skip(1) =~= version);
    }
}

/// On the canary channel a release that is known is shown just where it was not
/// dismissed and its version is another than the installed one: no version is
/// held to be too old.
pub proof fn law_canary_shows_what_differs(
    known: UpdateView,
    version: Seq<char>,
    installed: Seq<char>,
    dismissed: Option<Seq<char>>,
)
    requires
        tags(known.tag, version),
    ensures
        version != installed && dismissed != Some(known.tag) ==> shown(
            Some(known),
            UpdateChannel::Canary,
            installed,
            dismissed,
        ) == Some(known),
        version == installed || dismissed == Some(known.tag) ==> shown(
            Some(known),
            UpdateChannel::Canary,
            installed,
            dismissed,
        ) is None,
{
    law_version_of_tag(known.tag, version);
}

/// On the stable channel a release that is known is shown just where it was not
/// dismissed and its version is greater than the installed one; where one of the
/// two is no version, it is not shown.
pub proof fn law_stable_shows_what_is_greater(
    known: UpdateView,
    version: Seq<char>,
    installed: Seq<char>,
    base: Seq<char>,
    dismissed: Option<Seq<char>>,
)
    requires
        tags(known.tag, version),
        tags(installed, base),
    ensures
        semver_newer(version, base) == Some(true) && dismissed != Some(known.tag) ==> shown(
            Some(known),
            UpdateChannel::Stable,
            installed,
            dismissed,
        ) == Some(known),
        semver_newer(version, base) != Some(true) || dismissed == Some(known.tag) ==> shown(
            Some(known),
            UpdateChannel::Stable,
            installed,
            dismissed,
        ) is None,
{
    law_version_of_tag(known.tag, version);
    law_version_of_tag(installed, base);
}

/// Where nothing is known, nothing is shown; and what is shown is what is known.
pub proof fn law_shown_is_known(
    known: Option<UpdateView>,
    channel: UpdateChannel,
    installed: Seq<char>,
    dismissed: Option<Seq<char>>,
)
    ensures
        known is None ==> shown(known, channel, installed, dismissed) is None,
        shown(known, channel, installed, dismissed) is Some ==> shown(
            known,
            channel,
            installed,
            dismissed,
        ) == known,
{
}

/// A check that has found a release on the canary channel shows it wherever its
/// version differs from the installed one and it was not dismissed; on the stable
/// channel, wherever it is greater. Until the next question the answer stays.
pub proof fn law_found_is_shown(
    before: UpdateCheckCache,
    channel: UpdateChannel,
    found: PendingUpdate,
    version: Seq<char>,
    installed: Seq<char>,
    base: Seq<char>,
    now: u64,
)
    requires
        tags(found.tag@, version),
        tags(installed, base),
        text::opt_view(before.dismissed_key) != Some(found.tag@),
    ensures
        ({
            let after = after_check(before, channel, Some(found), now);
            let answer = remembered(after, channel, installed);
            &&& after.last_known == Some(found)
            &&& after.last_checked_at == now
            &&& after.last_channel == Some(channel)
            &&& after.dismissed_key == before.dismissed_key
            &&& match channel {
                UpdateChannel::Canary => answer == (if version != installed {
                    Some(found@)
                } else {
                    None
                }),
                UpdateChannel::Stable => answer == (if semver_newer(version, base) == Some(true) {
                    Some(found@)
                } else {
                    None
                }),
            }
        }),
{
    law_canary_shows_what_differs(found@, version, installed, text::opt_view(before.dismissed_key));
    law_stable_shows_what_is_greater(
        found@,
        version,
        installed,
        base,
        text::opt_view(before.dismissed_key),
    );
}

/// An answer is good for a day on its channel, and a clock that goes back does not
/// end that; a question that is forced is always asked, and so is one of a channel
/// that was not asked last.
pub proof fn law_asked_once_a_day(
    cache: UpdateCheckCache,
    channel: UpdateChannel,
    force: bool,
    now: u64,
)
    ensures
        force ==> !still_good(cache, channel, force, now),
        cache.last_channel != Some(channel) ==> !still_good(cache, channel, force, now),
        !force && cache.last_channel == Some(channel) && now < cache.last_checked_at + 86_400
            ==> still_good(cache, channel, force, now),
        now >= cache.last_checked_at + 86_400 ==> !still_good(cache, channel, force, now),
{
}

/// The tag of a preview holds a version, the mark and a commit: neither is empty,
/// and the commit has no slash.
pub proof fn law_preview_has_parts(tag: Seq<char>)
    requires
        canary_tag(tag),
    ensures
        exists|version: Seq<char>, base: Seq<char>, commit: Seq<char>|
            #![trigger tags(tag, version), base + "-canary."@ + commit]
            {
                &&& tags(tag, version)
                &&& version == base + "-canary."@ + commit
                &&& base.len() > 0
                &&& commit.len() > 0
                &&& forall|i: int| 0 <= i < commit.len() ==> commit[i] != '/'
            },
{
    let version = tag_version(tag);
    let mark = "-canary."@;
    law_version_of_tag(tag, version);
    text::lemma_find_from(version, mark, 0);
    let i = text::find(version, mark)->0;
    let n = mark.len() as int;
    let base = version.take(i);
    let commit = version.skip(i + n);
    assert(version.subrange(i, i + n) == mark);
    assert(version =~= base + mark + commit);
    assert forall|k: int| 0 <= k < commit.len() implies commit[k] != '/' by {
        if commit[k] == '/' {
            reveal_strlit("/");
            assert(commit.subrange(k, k + 1) =~= "/"@);
            assert(text::occurs_at(commit, "/"@, k));
        }
    }
    assert(tags(tag, version) && version == base + "-canary."@ + commit);
}

/// The mark of a preview begins with a hyphen.
proof fn lemma_mark()
    ensures
        "-canary."@.len() == 8,
        "-canary."@[0] == '-',
{
    reveal_strlit("-canary.");
}

/// A text that begins with a hyphen stands only where there is one.
proof fn lemma_mark_at(s: Seq<char>, mark: Seq<char>, i: int)
    requires
        mark.len() > 0,
        mark[0] == '-',
        text::occurs_at(s, mark, i),
    ensures
        0 <= i < s.len(),
        s[i] == '-',
{
    assert(s.subrange(i, i + mark.len())[0] == s[i]);
}

/// The parts of a text that was put together.
proof fn lemma_parts(base: Seq<char>, mark: Seq<char>, commit: Seq<char>)
    ensures
        text::occurs_at(base + mark + commit, mark, base.len() as int),
        (base + mark + commit).skip((base.len() + mark.len()) as int) == commit,
        (base + mark + commit).take(base.len() as int) == base,
{
    let whole = base + mark + commit;
    assert(whole.subrange(base.len() as int, (base.len() + mark.len()) as int) =~= mark);
    assert(whole.skip((base.len() + mark.len()) as int) =~= commit);
    assert(whole.take(base.len() as int) =~= base);
}

/// Where a text has no hyphen before the mark, the mark is found there.
proof fn lemma_mark_found(whole: Seq<char>, mark: Seq<char>, i: int)
    requires
        mark.len() > 0,
        mark[0] == '-',
        text::occurs_at(whole, mark, i),
        forall|k: int| 0 <= k < i ==> #[trigger] whole[k] != '-',
    ensures
        text::find(whole, mark) == Some(i),
{
    text::lemma_find_from(whole, mark, 0);
    let k = text::find(whole, mark)->0;
    assert(text::find(whole, mark) is Some);
    lemma_mark_at(whole, mark, k);
}

/// Without hyphens there is no mark.
proof fn lemma_no_mark(base: Seq<char>, mark: Seq<char>)
    requires
        mark.len() > 0,
        mark[0] == '-',
        forall|i: int| 0 <= i < base.len() ==> #[trigger] base[i] != '-',
    ensures
        text::find(base, mark) is None,
{
    text::lemma_find_from(base, mark, 0);
    if text::find(base, mark) is Some {
        lemma_mark_at(base, mark, text::find(base, mark)->0);
    }
}

/// A text without slashes holds no slash.
proof fn lemma_no_slash(s: Seq<char>)
    requires
        forall|i: int| 0 <= i < s.len() ==> #[trigger] s[i] != '/',
    ensures
        !text::contains(s, "/"@),
{
    reveal_strlit("/");
    if text::contains(s, "/"@) {
        let k = choose|k: int| text::occurs_at(s, "/"@, k);
        assert(s.subrange(k, k + 1)[0] == s[k]);
    }
}

/// A version without hyphens, the mark and a commit without a slash are the tag of
/// a preview, with or without a `v`; and such a version alone is none.
pub proof fn law_preview_is_seen(tag: Seq<char>, base: Seq<char>, commit: Seq<char>)
    requires
        base.len() > 0,
        forall|i: int| 0 <= i < base.len() ==> #[trigger] base[i] != '-',
        forall|i: int| 0 <= i < commit.len() ==> #[trigger] commit[i] != '/',
    ensures
        tags(tag, base + "-canary."@ + commit) && commit.len() > 0 ==> canary_tag(tag),
        tags(tag, base) ==> !canary_tag(tag),
{
    lemma_mark();
    let mark = "-canary."@;
    let whole = base + mark + commit;
    lemma_parts(base, mark, commit);
    assert forall|k: int| 0 <= k < base.len() implies #[trigger] whole[k] != '-' by {
        assert(whole.take(base.len() as int)[k] == whole[k]);
    }
    lemma_mark_found(whole, mark, base.len() as int);
    lemma_no_mark(base, mark);
    lemma_no_slash(commit);
    law_version_of_tag(tag, base + "-canary."@ + commit);
    law_version_of_tag(tag, base);
}

/// Only an address of GitHub over HTTPS, and there only the program's releases,
/// may be opened.
pub proof fn law_only_releases_are_opened(url: Seq<char>)
    requires
        allowed_url(url),
    ensures
        web::url_scheme(url) == "https"@,
        web::url_host(url) == Some("github.com"@),
        web::url_path(url) == "/Questory-Labs/qMonitor/releases"@ || text::starts_with(
            web::url_path(url),
            "/Questory-Labs/qMonitor/releases/"@,
        ),
{
    reveal_strlit("/Questory-Labs/qMonitor/releases");
    reveal_strlit("/");
    reveal_strlit("/Questory-Labs/qMonitor/releases/");
    assert("/Questory-Labs/qMonitor/releases"@ + "/"@ =~= "/Questory-Labs/qMonitor/releases/"@);
}

/// A release that was dismissed stays silent: neither what is remembered nor a
/// later check that brings the same tag shows it.
pub proof fn law_dismissed_stays_silent(
    before: UpdateCheckCache,
    dismissed: UpdateCheckCache,
    known: PendingUpdate,
    fetched: PendingUpdate,
    channel: UpdateChannel,
    installed: Seq<char>,
    now: u64,
)
    requires
        dismissed_from(before, dismissed),
        before.last_known == Some(known),
        fetched.tag@ == known.tag@,
    ensures
        remembered(dismissed, channel, installed) is None,
        remembered(after_check(dismissed, channel, Some(fetched), now), channel, installed)
            is None,
{
}

} // verus!
