//! Flutter releases: channels, the release list and its archive addresses.

use vstd::prelude::*;
use crate::text::{contains_seq, indices_where, str_contains, str_equal};

verus! {

// ----- release dates (chrono) -----

#[verifier::external_type_specification]
#[verifier::external_body]
pub struct ExChronoParseError(chrono::ParseError);

/// What chrono reads from an RFC 3339 text: the instant as UTC seconds since the
/// epoch, the nanoseconds within that second, and the offset east of UTC in seconds;
/// `None` where chrono refuses the text.
pub uninterp spec fn rfc3339_parsed(text: Seq<char>) -> Option<(i64, u32, i32)>;

/// The RFC 3339 text that chrono writes for an instant with an offset.
pub uninterp spec fn rfc3339_formatted(timestamp: i64, nanos: u32, offset_secs: i32) -> Seq<char>;

/// Calls `chrono::DateTime::parse_from_rfc3339` and takes the result apart into
/// `timestamp()`, `timestamp_subsec_nanos()` and the offset's `local_minus_utc()`.
/// Trusted: the outcome is the one `rfc3339_parsed` names for the text.
#[verifier::external_body]
fn parse_rfc3339(text: &str) -> (r: Result<(i64, u32, i32), chrono::ParseError>)
    ensures
        r matches Ok(p) ==> rfc3339_parsed(text@) == Some(p),
        r is Err ==> rfc3339_parsed(text@) is None,
{
    match chrono::DateTime::parse_from_rfc3339(text) {
        Ok(d) => Ok((d.timestamp(), d.timestamp_subsec_nanos(), d.offset().local_minus_utc())),
        Err(e) => Err(e),
    }
}

/// Calls `chrono::DateTime::to_rfc3339` on the date put back together with
/// `DateTime::from_timestamp` and `FixedOffset::east_opt`.
/// Trusted: the text is the one `rfc3339_formatted` names for the parts; the parts
/// must be ones that chrono gave out, so that putting them together succeeds.
#[verifier::external_body]
fn format_rfc3339(timestamp: i64, nanos: u32, offset_secs: i32) -> (r: String)
    requires
        exists|text: Seq<char>| rfc3339_parsed(text) == Some((timestamp, nanos, offset_secs)),
    ensures
        r@ == rfc3339_formatted(timestamp, nanos, offset_secs),
{
    let utc = chrono::DateTime::from_timestamp(timestamp, nanos).unwrap();
    let offset = chrono::FixedOffset::east_opt(offset_secs).unwrap();
    utc.with_timezone(&offset).to_rfc3339()
}

/// The date of a release: an instant and the offset it was written with.
#[derive(Clone, Copy, Debug)]
pub struct ReleaseDate {
    timestamp: i64,
    nanos: u32,
    offset_secs: i32,
}

impl View for ReleaseDate {
    type V = (i64, u32, i32);

    closed spec fn view(&self) -> (i64, u32, i32) {
        (self.timestamp, self.nanos, self.offset_secs)
    }
}

impl ReleaseDate {
    /// A release date always comes from a text that chrono read.
    #[verifier::type_invariant]
    spec fn was_read(self) -> bool {
        exists|text: Seq<char>|
            rfc3339_parsed(text) == Some((self.timestamp, self.nanos, self.offset_secs))
    }
}

/// A release date that could not be read, with chrono's reason.
pub struct ReleaseDateError(pub chrono::ParseError);

/// Reads a release date written in RFC 3339 form.
pub fn deserialize_time(time: &str) -> (r: Result<ReleaseDate, ReleaseDateError>)
    ensures
        r is Ok <==> rfc3339_parsed(time@) is Some,
        r matches Ok(d) ==> rfc3339_parsed(time@) == Some(d@),
{
    match parse_rfc3339(time) {
        Ok((timestamp, nanos, offset_secs)) => {
            let d = ReleaseDate { timestamp, nanos, offset_secs };
            Ok(d)
        },
        Err(e) => Err(ReleaseDateError(e)),
    }
}

/// Writes a release date in RFC 3339 form.
pub fn serialize_time(date: &ReleaseDate) -> (r: String)
    ensures
        r@ == rfc3339_formatted(date@.0, date@.1, date@.2),
{
    proof {
        use_type_invariant(date);
    }
    format_rfc3339(date.timestamp, date.nanos, date.offset_secs)
}

// ----- channels -----

/// A release channel of Flutter.
#[derive(Clone, Copy, Debug, PartialEq, Eq, Structural)]
pub enum Channel {
    Stable,
    Beta,
    Dev,
}

/// The lower-case name of a channel, as the release list writes it.
pub open spec fn channel_name(c: Channel) -> Seq<char> {
    match c {
        Channel::Stable => seq!['s', 't', 'a', 'b', 'l', 'e'],
        Channel::Beta => seq!['b', 'e', 't', 'a'],
        Channel::Dev => seq!['d', 'e', 'v'],
    }
}

/// The channel a name in the release list stands for: anything that is
/// neither `stable` nor `beta` counts as `dev`.
pub open spec fn channel_of_name(s: Seq<char>) -> Channel {
    if s == channel_name(Channel::Stable) {
        Channel::Stable
    } else if s == channel_name(Channel::Beta) {
        Channel::Beta
    } else {
        Channel::Dev
    }
}

/// The name of a channel as its `Debug` form writes it (`Stable`, `Beta`, `Dev`).
pub open spec fn channel_display_name(c: Channel) -> Seq<char> {
    match c {
        Channel::Stable => seq!['S', 't', 'a', 'b', 'l', 'e'],
        Channel::Beta => seq!['B', 'e', 't', 'a'],
        Channel::Dev => seq!['D', 'e', 'v'],
    }
}

/// A channel written into the release list reads back as the same channel.
pub proof fn lemma_channel_name_roundtrip(c: Channel)
    ensures
        channel_of_name(channel_name(c)) == c,
{
    assert(channel_name(Channel::Beta) != channel_name(Channel::Stable));
    assert(channel_name(Channel::Dev) != channel_name(Channel::Stable));
    assert(channel_name(Channel::Dev) != channel_name(Channel::Beta));
}

impl Channel {
    /// The lower-case name: `stable`, `beta` or `dev`.
    pub fn to_string(&self) -> (r: String)
        ensures
            r@ == channel_name(*self),
    {
        match self {
            Channel::Stable => {
                let s = "stable";
                proof {
                    reveal_strlit("stable");
                }
                String::from_str(s)
            },
            Channel::Beta => {
                let s = "beta";
                proof {
                    reveal_strlit("beta");
                }
                String::from_str(s)
            },
            Channel::Dev => {
                let s = "dev";
                proof {
                    reveal_strlit("dev");
                }
                String::from_str(s)
            },
        }
    }

    /// The name written into the release list: the lower-case name.
    pub fn serialize(&self) -> (r: String)
        ensures
            r@ == channel_name(*self),
    {
        self.to_string()
    }

    /// The channel that a name in the release list stands for.
    pub fn deserialize(s: &str) -> (c: Channel)
        ensures
            c == channel_of_name(s@),
    {
        let stable = Channel::Stable.to_string();
        let beta = Channel::Beta.to_string();
        if str_equal(s, stable.as_str()) {
            Channel::Stable
        } else if str_equal(s, beta.as_str()) {
            Channel::Beta
        } else {
            Channel::Dev
        }
    }

    /// The name that the channel is shown with: `Stable`, `Beta` or `Dev`.
    pub fn display(&self) -> (r: String)
        ensures
            r@ == channel_display_name(*self),
    {
        match self {
            Channel::Stable => {
                let s = "Stable";
                proof {
                    reveal_strlit("Stable");
                }
                String::from_str(s)
            },
            Channel::Beta => {
                let s = "Beta";
                proof {
                    reveal_strlit("Beta");
                }
                String::from_str(s)
            },
            Channel::Dev => {
                let s = "Dev";
                proof {
                    reveal_strlit("Dev");
                }
                String::from_str(s)
            },
        }
    }
}

// ----- releases -----

/// One Flutter release of the release list.
#[derive(Clone, Debug)]
pub struct Release {
    pub hash: String,
    pub channel: Channel,
    pub version: String,
    pub release_date: ReleaseDate,
    pub archive: String,
    pub sha256: String,
}

/// How a release is shown and named on disk: `version-channel`.
pub open spec fn release_label(version: Seq<char>, channel: Channel) -> Seq<char> {
    version.push('-') + channel_name(channel)
}

/// A release's label is its version, a dash, and a name that reads back as the
/// release's own channel.
pub proof fn lemma_release_label_parts(version: Seq<char>, channel: Channel)
    ensures
        release_label(version, channel).take(version.len() as int) == version,
        release_label(version, channel)[version.len() as int] == '-',
        channel_of_name(release_label(version, channel).skip(version.len() + 1 as int)) == channel,
        release_label(version, channel).len() == version.len() + 1 + channel_name(channel).len(),
        channel == Channel::Stable ==> release_label(version, channel).skip(version.len() + 1 as int)
            == seq!['s', 't', 'a', 'b', 'l', 'e'],
        channel == Channel::Beta ==> release_label(version, channel).skip(version.len() + 1 as int)
            == seq!['b', 'e', 't', 'a'],
        channel == Channel::Dev ==> release_label(version, channel).skip(version.len() + 1 as int)
            == seq!['d', 'e', 'v'],
{
    let l = release_label(version, channel);
    assert(l.take(version.len() as int) =~= version);
    assert(l.skip(version.len() + 1 as int) =~= channel_name(channel));
    lemma_channel_name_roundtrip(channel);
}

impl Release {
    /// The label of the release: `version-channel`, e.g. `2.0.4-stable`.
    pub fn display(&self) -> (r: String)
        ensures
            r@ == release_label(self.version@, self.channel),
    {
        let mut r = self.version.clone();
        let dash = "-";
        proof {
            reveal_strlit("-");
        }
        r.append(dash);
        let name = self.channel.to_string();
        r.append(name.as_str());
        proof {
            assert(r@ =~= release_label(self.version@, self.channel));
        }
        r
    }
}

/// The positions of the releases of a channel, in order.
pub fn releases_in_channel(releases: &Vec<Release>, channel: Channel) -> (r: Vec<usize>)
    ensures
        r@ == indices_where(releases@.len(), |i: int| releases@[i].channel == channel),
{
    let ghost p = |i: int| releases@[i].channel == channel;
    let mut r: Vec<usize> = Vec::new();
    let mut i: usize = 0;
    while i < releases.len()
        invariant
            p == (|i: int| releases@[i].channel == channel),
            i <= releases@.len(),
            r@ == indices_where(i as nat, p),
        decreases releases@.len() - i,
    {
        if releases[i].channel == channel {
            r.push(i);
        }
        i = i + 1;
    }
    r
}

/// The positions of the releases whose label holds `query`, in order.
pub fn releases_matching(releases: &Vec<Release>, query: &str) -> (r: Vec<usize>)
    ensures
        r@ == indices_where(
            releases@.len(),
            |i: int| contains_seq(release_label(releases@[i].version@, releases@[i].channel), query@),
        ),
{
    let ghost p = |i: int|
        contains_seq(release_label(releases@[i].version@, releases@[i].channel), query@);
    let mut r: Vec<usize> = Vec::new();
    let mut i: usize = 0;
    while i < releases.len()
        invariant
            p == (|i: int|
                contains_seq(release_label(releases@[i].version@, releases@[i].channel), query@)),
            i <= releases@.len(),
            r@ == indices_where(i as nat, p),
        decreases releases@.len() - i,
    {
        let label = releases[i].display();
        if str_contains(label.as_str(), query) {
            r.push(i);
        }
        i = i + 1;
    }
    r
}

// ----- where the release list lives -----

/// The operating systems that Flutter publishes releases for.
#[derive(Clone, Copy, Debug, PartialEq, Eq, Structural)]
pub enum TargetOs {
    Linux,
    Windows,
    Macos,
}

/// The address of the release list for an operating system.
pub fn get_release_url(os: TargetOs) -> (r: String)
    ensures
        os == TargetOs::Linux ==> r@
            == "https://storage.googleapis.com/flutter_infra_release/releases/releases_linux.json"@,
        os == TargetOs::Windows ==> r@
            == "https://storage.googleapis.com/flutter_infra_release/releases/releases_windows.json"@,
        os == TargetOs::Macos ==> r@
            == "https://storage.googleapis.com/flutter_infra_release/releases/releases_macos.json"@,
{
    match os {
        TargetOs::Linux => String::from_str(
            "https://storage.googleapis.com/flutter_infra_release/releases/releases_linux.json",
        ),
        TargetOs::Windows => String::from_str(
            "https://storage.googleapis.com/flutter_infra_release/releases/releases_windows.json",
        ),
        TargetOs::Macos => String::from_str(
            "https://storage.googleapis.com/flutter_infra_release/releases/releases_macos.json",
        ),
    }
}

// ----- archive addresses (url) -----

/// Whether the url crate reads `s` as an absolute URL.
pub uninterp spec fn url_parses(s: Seq<char>) -> bool;

/// The serialization of the URL that `input` denotes relative to the URL read
/// from `base`; `None` where either step fails.
pub uninterp spec fn joined_url(base: Seq<char>, input: Seq<char>) -> Option<Seq<char>>;

/// Calls `url::Url::parse`. Trusted: succeeds exactly where `url_parses` says.
#[verifier::external_body]
fn parses_as_url(s: &str) -> (b: bool)
    ensures
        b == url_parses(s@),
{
    url::Url::parse(s).is_ok()
}

/// Calls `url::Url::join` on the URL that `url::Url::parse` reads from `base`,
/// and gives the serialization (`Url::as_str`) of the result.
/// Trusted: the outcome is the one `joined_url` names for the two texts.
#[verifier::external_body]
fn join_url(base: &str, input: &str) -> (r: Option<String>)
    ensures
        r matches Some(s) ==> joined_url(base@, input@) == Some(s@),
        r is None ==> joined_url(base@, input@) is None,
{
    match url::Url::parse(base) {
        Ok(root) => match root.join(input) {
            Ok(u) => Some(String::from(u.as_str())),
            Err(_) => None,
        },
        Err(_) => None,
    }
}

/// `after` is `before` with its archive replaced by the address `archive`.
pub open spec fn same_but_archive(before: Release, after: Release, archive: Seq<char>) -> bool {
    &&& after.hash == before.hash
    &&& after.channel == before.channel
    &&& after.version == before.version
    &&& after.release_date == before.release_date
    &&& after.sha256 == before.sha256
    &&& after.archive@ == archive
}

/// The root that archive paths of the release list are relative to: the base URL and a `/`.
pub open spec fn archive_root(base_url: Seq<char>) -> Seq<char> {
    base_url.push('/')
}

/// Every archive path resolves against the root.
pub open spec fn archives_resolve(base_url: Seq<char>, releases: Seq<Release>) -> bool {
    &&& url_parses(archive_root(base_url))
    &&& forall|i: int|
        0 <= i < releases.len() ==> (#[trigger] joined_url(
            archive_root(base_url),
            releases[i].archive@,
        )) is Some
}

/// Gives each release the archive address at the same position; everything else stays.
pub fn replace_archives(releases: Vec<Release>, archives: Vec<String>) -> (r: Vec<Release>)
    requires
        archives@.len() == releases@.len(),
    ensures
        r@.len() == releases@.len(),
        forall|i: int|
            0 <= i < r@.len() ==> same_but_archive(releases@[i], #[trigger] r@[i], archives@[i]@),
{
    let ghost all = releases@;
    let ghost addresses = archives@;
    let mut rest = releases;
    let mut new_archives = archives;
    let mut out: Vec<Release> = Vec::new();
    while rest.len() > 0
        invariant
            all.len() == addresses.len(),
            all.len() == out@.len() + rest@.len(),
            rest@ == all.skip(out@.len() as int),
            new_archives@ == addresses.skip(out@.len() as int),
            forall|i: int|
                0 <= i < out@.len() ==> same_but_archive(all[i], #[trigger] out@[i], addresses[i]@),
        decreases rest@.len(),
    {
        let ghost k = out@.len() as int;
        let ghost old_out = out@;
        let r0 = rest.remove(0);
        let archive = new_archives.remove(0);
        assert(r0 == all[k]);
        assert(archive == addresses[k]);
        assert(rest@ =~= all.skip(k + 1));
        assert(new_archives@ =~= addresses.skip(k + 1));
        let fixed = Release {
            hash: r0.hash,
            channel: r0.channel,
            version: r0.version,
            release_date: r0.release_date,
            archive,
            sha256: r0.sha256,
        };
        out.push(fixed);
        proof {
            assert forall|i: int| 0 <= i < out@.len() implies same_but_archive(
                all[i],
                #[trigger] out@[i],
                addresses[i]@,
            ) by {
                if i < k {
                    assert(out@[i] == old_out[i]);
                }
            }
        }
    }
    out
}

/// Turns the archive paths of the release list, which are relative to `base_url`,
/// into full addresses. Gives `None` where the root or an archive path is not a URL.
pub fn resolve_release_archives(base_url: &str, releases: Vec<Release>) -> (r: Option<
    Vec<Release>,
>)
    ensures
        r is Some <==> archives_resolve(base_url@, releases@),
        r matches Some(v) ==> {
            &&& v@.len() == releases@.len()
            &&& forall|i: int|
                0 <= i < v@.len() ==> same_but_archive(
                    releases@[i],
                    #[trigger] v@[i],
                    joined_url(archive_root(base_url@), releases@[i].archive@)->0,
                )
        },
{
    let mut root = String::from_str(base_url);
    let slash = "/";
    proof {
        reveal_strlit("/");
    }
    root.append(slash);
    assert(root@ == archive_root(base_url@));
    if !parses_as_url(root.as_str()) {
        return None;
    }
    let mut archives: Vec<String> = Vec::new();
    let mut i: usize = 0;
    while i < releases.len()
        invariant
            root@ == archive_root(base_url@),
            url_parses(root@),
            i <= releases@.len(),
            archives@.len() == i,
            forall|j: int|
                0 <= j < i ==> joined_url(root@, releases@[j].archive@) == Some(
                    (#[trigger] archives@[j])@,
                ),
        decreases releases@.len() - i,
    {
        match join_url(root.as_str(), releases[i].archive.as_str()) {
            Some(address) => {
                archives.push(address);
            },
            None => {
                assert(joined_url(archive_root(base_url@), releases@[i as int].archive@) is None);
                return None;
            },
        }
        i = i + 1;
    }
    proof {
        assert forall|j: int| 0 <= j < releases@.len() implies (#[trigger] joined_url(
            archive_root(base_url@),
            releases@[j].archive@,
        )) is Some by {
            assert(joined_url(root@, releases@[j].archive@) == Some(archives@[j]@));
        }
    }
    let ghost before = releases@;
    let ghost addresses = archives@;
    let fixed = replace_archives(releases, archives);
    proof {
        assert forall|j: int| 0 <= j < fixed@.len() implies same_but_archive(
            before[j],
            #[trigger] fixed@[j],
            joined_url(archive_root(base_url@), before[j].archive@)->0,
        ) by {
            assert(joined_url(root@, before[j].archive@) == Some(addresses[j]@));
        }
    }
    Some(fixed)
}

} // verus!
