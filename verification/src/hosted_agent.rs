//! The hosted agent's harness: where it is installed, its private
//! configuration, the live facts a session starts with, and its launch
//! command.

use vstd::prelude::*;
use crate::agent::ModelTier;
use crate::digest::hex_digit;
use crate::format::{
    append_decimal, append_two_digits, decimal, lemma_text_before_at, text_before, two_digits,
};
use crate::inbox::text_of;
use crate::json::{pretty_object, scalars, to_json_pretty, JsonScalar, Scalar};
use crate::lines::{join, joined, strings, texts};
use crate::moments::{date_text, format_date, iso_week, iso_week_of, Date};
use crate::paths::{
    join_path, joined_path, parent_on, path_parent_on, separator, shown_path, vault_relative,
};
use crate::text::{append, append_str, from_chars, own, same_str, to_chars, trim, trimmed};

verus! {

/// The adapter, pinned so that a registry change never reaches users untested.
pub const PI_ACP_PACKAGE: &'static str = "pi-acp";

pub const PI_ACP_VERSION: &'static str = "0.0.33";

/// The harness that the adapter drives.
pub const PI_PACKAGE: &'static str = "@earendil-works/pi-coding-agent";

pub const PI_VERSION: &'static str = "0.85.1";

pub const AGENT_ID: &'static str = "thock-hosted-agent";

/// Where the packages land, beside other external agents.
pub fn install_dir(external_agents_dir: &str, windows: bool) -> (dir: String)
    ensures
        dir@ == joined_path(external_agents_dir@, "thock-hosted"@, windows),
{
    join_path(external_agents_dir, "thock-hosted", windows)
}

/// A number in hexadecimal, in sixteen digits.
pub open spec fn hex16(n: u64) -> Seq<char> {
    Seq::new(16, |i: int| hex_digit(hex_place(n as int, 15 - i)))
}

/// The hexadecimal digit of a number at a place, counted from the right.
pub open spec fn hex_place(n: int, place: int) -> int
    decreases place,
{
    if place <= 0 {
        n % 16
    } else {
        hex_place(n / 16, place - 1)
    }
}

/// The name of a session's configuration folder: one per tier and vault, so
/// that two sessions never race over one another's files.
pub open spec fn config_segment(tier: Seq<char>, vault_hash: Option<u64>) -> Seq<char> {
    match vault_hash {
        Some(hash) => tier + seq!['-'] + hex16(hash),
        None => tier,
    }
}

fn append_hex16(out: &mut Vec<char>, n: u64)
    ensures
        final(out)@ == old(out)@ + hex16(n),
{
    let mut digits: Vec<char> = Vec::new();
    let mut rest: u64 = n;
    let mut k: usize = 0;
    while k < 16
        invariant
            k <= 16,
            digits@.len() == k,
            forall|j: int| 0 <= j < k ==> #[trigger] digits@[j] == hex_digit(hex_place(n as int, j)),
            forall|p: int|
                0 <= p ==> #[trigger] hex_place(rest as int, p) == hex_place(n as int, k + p),
        decreases 16 - k,
    {
        let d: u8 = (rest % 16) as u8;
        let ghost before = rest;
        assert(hex_place(rest as int, 0) == hex_place(n as int, k + 0));
        let c: char = if d < 10 {
            (48 + d) as char
        } else {
            (87 + d) as char
        };
        digits.push(c);
        rest = rest / 16;
        k = k + 1;
        assert forall|p: int| 0 <= p implies #[trigger] hex_place(rest as int, p) == hex_place(
            n as int,
            k + p,
        ) by {
            assert(hex_place(before as int, p + 1) == hex_place(rest as int, p));
            assert(hex_place(before as int, p + 1) == hex_place(n as int, (k - 1) + (p + 1)));
        }
    }
    let ghost base = out@;
    let mut i: usize = 16;
    while i > 0
        invariant
            i <= 16,
            digits@.len() == 16,
            forall|j: int|
                0 <= j < 16 ==> #[trigger] digits@[j] == hex_digit(hex_place(n as int, j)),
            out@ == base + hex16(n).take(16 - i),
        decreases i,
    {
        out.push(digits[i - 1]);
        assert(hex16(n)[16 - i] == digits@[i - 1]);
        assert(hex16(n).take(16 - i + 1) =~= hex16(n).take(16 - i).push(digits@[i - 1]));
        i = i - 1;
    }
    assert(hex16(n).take(16) =~= hex16(n));
}

/// The configuration folder of a session on a tier, for the hash of its vault's
/// path.
pub open spec fn config_path(
    data_dir: Seq<char>,
    tier: ModelTier,
    vault_hash: Option<u64>,
    windows: bool,
) -> Seq<char> {
    joined_path(
        joined_path(joined_path(data_dir, "thock"@, windows), "hosted-agent"@, windows),
        config_segment(
            match tier {
                ModelTier::Default => "default"@,
                ModelTier::Fast => "fast"@,
            },
            vault_hash,
        ),
        windows,
    )
}

/// A session's configuration folder, for the hash of its vault's path.
pub fn config_dir_for(
    data_dir: &str,
    tier: ModelTier,
    vault_hash: Option<u64>,
    windows: bool,
) -> (dir: String)
    ensures
        dir@ == config_path(data_dir@, tier, vault_hash, windows),
{
    let mut segment: Vec<char> = to_chars(tier.as_str());
    if let Some(hash) = vault_hash {
        segment.push('-');
        append_hex16(&mut segment, hash);
        assert(segment@ =~= config_segment(
            match tier {
                ModelTier::Default => "default"@,
                ModelTier::Fast => "fast"@,
            },
            vault_hash,
        ));
    }
    let data = join_path(data_dir, "thock", windows);
    let base = join_path(data.as_str(), "hosted-agent", windows);
    join_path(base.as_str(), from_chars(segment.as_slice()).as_str(), windows)
}

/// `hash_one` of std's `BuildHasher`, on a path and with the hasher that
/// `DefaultHasher::new` makes. Nothing is claimed of the number: std leaves open
/// how it is made.
#[verifier::external_body]
fn path_hash(path: &str) -> (hash: u64) {
    std::hash::BuildHasher::hash_one(
        &std::hash::BuildHasherDefault::<std::hash::DefaultHasher>::default(),
        std::path::Path::new(path),
    )
}

/// Whether a number is what [`path_hash`] can give for a path.
pub closed spec fn hash_of(path: &str, hash: u64) -> bool {
    call_ensures(path_hash, (path,), hash)
}

/// A session's configuration folder: one per tier, and within a tier one per
/// vault, named by the hash of the vault's path. Which number that is, is left
/// open.
pub fn pi_config_dir(
    data_dir: &str,
    tier: ModelTier,
    vault_root: Option<&str>,
    windows: bool,
) -> (dir: String)
    ensures
        match vault_root {
            Some(root) => exists|hash: u64|
                hash_of(root, hash) && dir@ == #[trigger] config_path(
                    data_dir@,
                    tier,
                    Some(hash),
                    windows,
                ),
            None => dir@ == config_path(data_dir@, tier, None, windows),
        },
{
    match vault_root {
        Some(root) => {
            let hash: u64 = path_hash(root);
            assert(hash_of(root, hash));
            config_dir_for(data_dir, tier, Some(hash), windows)
        },
        None => config_dir_for(data_dir, tier, None, windows),
    }
}

/// Two numbers with the same hexadecimal digits are one.
proof fn lemma_hex_places(a: int, b: int, places: int, limit: int)
    requires
        0 <= places,
        0 <= a,
        0 <= b,
        forall|p: int| 0 <= p < places ==> #[trigger] hex_place(a, p) == hex_place(b, p),
        limit == sixteens(places),
        a < limit,
        b < limit,
    ensures
        a == b,
    decreases places,
{
    if places > 0 {
        assert(hex_place(a, 0) == hex_place(b, 0));
        assert forall|p: int| 0 <= p < places - 1 implies #[trigger] hex_place(a / 16, p)
            == hex_place(b / 16, p) by {
            assert(hex_place(a, p + 1) == hex_place(b, p + 1));
        }
        lemma_hex_places(a / 16, b / 16, places - 1, sixteens(places - 1));
    }
}

spec fn sixteens(n: int) -> int
    decreases n,
{
    if n <= 0 {
        1
    } else {
        16 * sixteens(n - 1)
    }
}

/// Sessions on different tiers, or in vaults whose paths have different hashes,
/// have different configuration folders; the same tier and hash have the same
/// one.
pub proof fn config_paths_differ(
    data_dir: Seq<char>,
    tier: ModelTier,
    hash: Option<u64>,
    other_tier: ModelTier,
    other_hash: Option<u64>,
    windows: bool,
)
    ensures
        config_path(data_dir, tier, hash, windows) == config_path(
            data_dir,
            other_tier,
            other_hash,
            windows,
        ) <==> (tier == other_tier && hash == other_hash),
{
    config_folders_differ(tier, hash, other_tier, other_hash);
    let base = joined_path(
        joined_path(data_dir, "thock"@, windows),
        "hosted-agent"@,
        windows,
    );
    let front = base + separator(base, windows);
    let a = config_path(data_dir, tier, hash, windows);
    let b = config_path(data_dir, other_tier, other_hash, windows);
    let name = |t: ModelTier|
        match t {
            ModelTier::Default => "default"@,
            ModelTier::Fast => "fast"@,
        };
    assert(a.skip(front.len() as int) =~= config_segment(name(tier), hash));
    assert(b.skip(front.len() as int) =~= config_segment(name(other_tier), other_hash));
}

/// Different tiers or hashes give a folder different names; the same ones give
/// it the same.
pub proof fn config_folders_differ(
    tier: ModelTier,
    hash: Option<u64>,
    other_tier: ModelTier,
    other_hash: Option<u64>,
)
    ensures
        ({
            let name = |t: ModelTier|
                match t {
                    ModelTier::Default => "default"@,
                    ModelTier::Fast => "fast"@,
                };
            config_segment(name(tier), hash) == config_segment(name(other_tier), other_hash) <==> (
            tier == other_tier && hash == other_hash)
        }),
{
    reveal_strlit("default");
    reveal_strlit("fast");
    let name = |t: ModelTier|
        match t {
            ModelTier::Default => "default"@,
            ModelTier::Fast => "fast"@,
        };
    let a = config_segment(name(tier), hash);
    let b = config_segment(name(other_tier), other_hash);
    if a == b {
        assert(a[0] == name(tier)[0]);
        assert(b[0] == name(other_tier)[0]);
        assert(tier == other_tier);
        if hash is Some && other_hash is Some {
            let x = hash->0;
            let y = other_hash->0;
            let n = name(tier).len() as int + 1;
            assert forall|p: int| 0 <= p < 16 implies #[trigger] hex_place(x as int, p)
                == hex_place(y as int, p) by {
                assert(a[n + 15 - p] == hex16(x)[15 - p]);
                assert(b[n + 15 - p] == hex16(y)[15 - p]);
                lemma_hex_digit(hex_place(x as int, p), hex_place(y as int, p));
                lemma_place_range(x as int, p);
                lemma_place_range(y as int, p);
            }
            assert(sixteens(16) == 0x1_0000_0000_0000_0000) by {
                reveal_with_fuel(sixteens, 17);
            }
            lemma_hex_places(x as int, y as int, 16, sixteens(16));
        }
    }
}

proof fn lemma_place_range(n: int, p: int)
    requires
        0 <= n,
        0 <= p,
    ensures
        0 <= hex_place(n, p) < 16,
    decreases p,
{
    if p > 0 {
        lemma_place_range(n / 16, p - 1);
    }
}

proof fn lemma_hex_digit(m: int, n: int)
    ensures
        0 <= m < 16 && 0 <= n < 16 && hex_digit(m) == hex_digit(n) ==> m == n,
{
}

/// The installed harness: where everything lies.
#[derive(Debug, Clone, PartialEq)]
pub struct InstalledHarness {
    pub node_binary: String,
    pub pi_acp_entry: String,
    /// The shim that the package manager links beside the packages.
    pub pi_command: String,
    pub bin_dir: String,
}

/// Where the harness lies once its packages are installed in a folder.
pub fn harness_in(dir: &str, node_binary: &str, windows: bool) -> (harness: InstalledHarness)
    ensures
        harness.node_binary@ == node_binary@,
        ({
            let modules = joined_path(dir@, "node_modules"@, windows);
            let dist = joined_path(joined_path(modules, "pi-acp"@, windows), "dist"@, windows);
            &&& harness.pi_acp_entry@ == joined_path(dist, "index.js"@, windows)
            &&& harness.bin_dir@ == joined_path(modules, ".bin"@, windows)
        }),
        harness.pi_command@ == joined_path(
            harness.bin_dir@,
            if windows {
                "pi.cmd"@
            } else {
                "pi"@
            },
            windows,
        ),
{
    let node_modules = join_path(dir, "node_modules", windows);
    let adapter = join_path(node_modules.as_str(), PI_ACP_PACKAGE, windows);
    let dist = join_path(adapter.as_str(), "dist", windows);
    let bin_dir = join_path(node_modules.as_str(), ".bin", windows);
    let pi_command = join_path(
        bin_dir.as_str(),
        if windows {
            "pi.cmd"
        } else {
            "pi"
        },
        windows,
    );
    InstalledHarness {
        node_binary: own(node_binary),
        pi_acp_entry: join_path(dist.as_str(), "index.js", windows),
        pi_command,
        bin_dir,
    }
}

/// The harness's own entry point, by which its installed version is told.
pub fn pi_entry(dir: &str, windows: bool) -> (path: String)
    ensures
        ({
            let modules = joined_path(dir@, "node_modules"@, windows);
            let package = joined_path(modules, "@earendil-works/pi-coding-agent"@, windows);
            let bundle = joined_path(joined_path(package, "dist"@, windows), "bundle"@, windows);
            path@ == joined_path(bundle, "cli.js"@, windows)
        }),
{
    let node_modules = join_path(dir, "node_modules", windows);
    let package = join_path(node_modules.as_str(), PI_PACKAGE, windows);
    let dist = join_path(package.as_str(), "dist", windows);
    let bundle = join_path(dist.as_str(), "bundle", windows);
    join_path(bundle.as_str(), "cli.js", windows)
}

/// The arguments of the install command. Its timeouts are sized for a large
/// dependency tree on an ordinary connection.
pub open spec fn install_words() -> Seq<Seq<char>> {
    seq![
        "pi-acp@0.0.33"@,
        "@earendil-works/pi-coding-agent@0.85.1"@,
        "--save-exact"@,
        "--fetch-retries"@,
        "5"@,
        "--fetch-retry-mintimeout"@,
        "2000"@,
        "--fetch-retry-maxtimeout"@,
        "30000"@,
        "--fetch-timeout"@,
        "120000"@,
    ]
}

/// The arguments of the install command, where one of the packages has to be
/// installed; both are, at their pinned versions.
pub fn install_args(needs_pi_acp: bool, needs_pi: bool) -> (args: Option<Vec<String>>)
    ensures
        match args {
            Some(a) => (needs_pi_acp || needs_pi) && strings(a@) == install_words(),
            None => !needs_pi_acp && !needs_pi,
        },
{
    if !needs_pi_acp && !needs_pi {
        return None;
    }
    let mut args: Vec<String> = Vec::new();
    args.push(own("pi-acp@0.0.33"));
    args.push(own("@earendil-works/pi-coding-agent@0.85.1"));
    args.push(own("--save-exact"));
    args.push(own("--fetch-retries"));
    args.push(own("5"));
    args.push(own("--fetch-retry-mintimeout"));
    args.push(own("2000"));
    args.push(own("--fetch-retry-maxtimeout"));
    args.push(own("30000"));
    args.push(own("--fetch-timeout"));
    args.push(own("120000"));
    assert(strings(args@) =~= install_words());
    Some(args)
}

/// The harness's settings for a model.
pub open spec fn settings_fields(model: Seq<char>) -> Seq<(Seq<char>, Scalar)> {
    seq![
        ("defaultModel"@, Scalar::Text(model)),
        ("defaultProjectTrust"@, Scalar::Text("never"@)),
        ("defaultProvider"@, Scalar::Text("openrouter"@)),
        ("enableInstallTelemetry"@, Scalar::Flag(false)),
        ("enableSkillCommands"@, Scalar::Flag(false)),
        ("quietStartup"@, Scalar::Flag(true)),
    ]
}

/// The harness's settings for a model: the provider, the model the plan maps
/// the tier to, and every startup nicety switched off, so that the process is
/// quiet and trusts nothing project-local.
pub fn pi_settings(model_id: &str) -> (settings: String)
    ensures
        settings@ == pretty_object(settings_fields(model_id@)),
{
    let mut fields: Vec<(String, JsonScalar)> = Vec::new();
    fields.push((own("defaultModel"), JsonScalar::Text(own(model_id))));
    fields.push((own("defaultProjectTrust"), JsonScalar::Text(own("never"))));
    fields.push((own("defaultProvider"), JsonScalar::Text(own("openrouter"))));
    fields.push((own("enableInstallTelemetry"), JsonScalar::Flag(false)));
    fields.push((own("enableSkillCommands"), JsonScalar::Flag(false)));
    fields.push((own("quietStartup"), JsonScalar::Flag(true)));
    proof {
        lemma_setting_keys();
        assert(scalars(fields@) =~= settings_fields(model_id@));
    }
    to_json_pretty(fields)
}

/// The settings stand in the order of their names.
proof fn lemma_setting_keys()
    ensures
        text_before("defaultModel"@, "defaultProjectTrust"@),
        text_before("defaultProjectTrust"@, "defaultProvider"@),
        text_before("defaultProvider"@, "enableInstallTelemetry"@),
        text_before("enableInstallTelemetry"@, "enableSkillCommands"@),
        text_before("enableSkillCommands"@, "quietStartup"@),
{
    reveal_strlit("defaultModel");
    reveal_strlit("defaultProjectTrust");
    reveal_strlit("defaultProvider");
    reveal_strlit("enableInstallTelemetry");
    reveal_strlit("enableSkillCommands");
    reveal_strlit("quietStartup");
    lemma_text_before_at("defaultModel"@, "defaultProjectTrust"@, 7);
    lemma_text_before_at("defaultProjectTrust"@, "defaultProvider"@, 10);
    lemma_text_before_at("defaultProvider"@, "enableInstallTelemetry"@, 0);
    lemma_text_before_at("enableInstallTelemetry"@, "enableSkillCommands"@, 6);
    lemma_text_before_at("enableSkillCommands"@, "quietStartup"@, 0);
}

/// The language that a vault was set to.
#[derive(Debug, Clone, PartialEq)]
pub struct LanguageConfig {
    /// A BCP 47 tag.
    pub tag: Option<String>,
    /// The user's own words.
    pub name: Option<String>,
}

/// A text with something to read.
pub open spec fn inked(s: Option<Seq<char>>) -> Option<Seq<char>> {
    match s {
        Some(t) => if trim(t).len() == 0 {
            None
        } else {
            Some(trim(t))
        },
        None => None,
    }
}

/// How a language is named to the agent.
pub open spec fn language_name(name: Option<Seq<char>>, tag: Option<Seq<char>>) -> Option<
    Seq<char>,
> {
    match (inked(name), inked(tag)) {
        (Some(n), Some(t)) => Some("**"@ + n + "** (`"@ + t + "`)"@),
        (Some(n), None) => Some("**"@ + n + "**"@),
        (None, Some(t)) => Some("`"@ + t + "`"@),
        (None, None) => None,
    }
}

fn inked_text(s: &Option<String>) -> (out: Option<String>)
    ensures
        text_of(out) == inked(text_of(*s)),
{
    match s {
        Some(t) => {
            let chars = to_chars(t.as_str());
            let kept = trimmed(chars.as_slice());
            if kept.len() == 0 {
                None
            } else {
                Some(from_chars(kept))
            }
        },
        None => None,
    }
}

/// The name of a vault's language, where it has one.
pub open spec fn vault_language(language: Option<LanguageConfig>) -> Option<Seq<char>> {
    match language {
        Some(l) => language_name(text_of(l.name), text_of(l.tag)),
        None => None,
    }
}

/// How a vault's language is named to the agent: the user's own words where
/// they were recorded, the tag where only that was.
pub fn language_label(language: &Option<LanguageConfig>) -> (label: Option<String>)
    ensures
        text_of(label) == vault_language(*language),
{
    match language {
        Some(l) => {
            let name = inked_text(&l.name);
            let tag = inked_text(&l.tag);
            let mut out: Vec<char> = Vec::new();
            match (&name, &tag) {
                (Some(n), Some(t)) => {
                    append_str(&mut out, "**");
                    append_str(&mut out, n.as_str());
                    append_str(&mut out, "** (`");
                    append_str(&mut out, t.as_str());
                    append_str(&mut out, "`)");
                    assert(out@ =~= "**"@ + n@ + "** (`"@ + t@ + "`)"@);
                },
                (Some(n), None) => {
                    append_str(&mut out, "**");
                    append_str(&mut out, n.as_str());
                    append_str(&mut out, "**");
                    assert(out@ =~= "**"@ + n@ + "**"@);
                },
                (None, Some(t)) => {
                    append_str(&mut out, "`");
                    append_str(&mut out, t.as_str());
                    append_str(&mut out, "`");
                    assert(out@ =~= "`"@ + t@ + "`"@);
                },
                (None, None) => {
                    return None;
                },
            }
            Some(from_chars(out.as_slice()))
        },
        None => None,
    }
}

/// A ritual of a routine.
#[derive(Debug, Clone, PartialEq)]
pub struct RoutineSkill {
    pub id: String,
    pub name: String,
    /// The path of its file in the vault.
    pub file: String,
    /// The tier of model that it asks for.
    pub model: ModelTier,
    pub summary: String,
}

/// An installed routine.
#[derive(Debug, Clone, PartialEq)]
pub struct RoutineManifest {
    pub id: String,
    pub name: String,
    pub doc: String,
    pub skills: Vec<RoutineSkill>,
}

/// What the session context reads of a vault.
#[derive(Debug, Clone, PartialEq)]
pub struct VaultFacts {
    pub root: String,
    /// The path of today's note.
    pub daily_note: String,
    pub daily_template: String,
    /// The path of this week's note.
    pub weekly_note: Option<String>,
    pub weekly_template: String,
    pub backlog_file: String,
    pub soon_heading: String,
    pub someday_heading: String,
    pub completed_heading: String,
    pub planner_heading: String,
    pub language: Option<LanguageConfig>,
}

/// A day as the session context names it.
pub struct DayNames {
    /// Weekday, day, month and year in words.
    pub long: String,
    /// Year, month and day.
    pub short: String,
    pub week_year: i32,
    pub week: u32,
}

/// What a day is called.
pub struct Day {
    pub long: Seq<char>,
    pub short: Seq<char>,
    pub week_year: i32,
    pub week: u32,
}

impl View for DayNames {
    type V = Day;

    open spec fn view(&self) -> Day {
        Day {
            long: self.long@,
            short: self.short@,
            week_year: self.week_year,
            week: self.week,
        }
    }
}

/// What a date is called; `None` where there is no such date.
pub open spec fn day_of(date: Date) -> Option<Day> {
    match (
        date_text(date.year, date.month, date.day, "%A, %-d %B %Y"@),
        date_text(date.year, date.month, date.day, "%Y-%m-%d"@),
        iso_week_of(date.year, date.month, date.day),
    ) {
        (Some(long), Some(short), Some((week_year, week))) => Some(
            Day { long, short, week_year, week },
        ),
        _ => None,
    }
}

/// A text, where there is one.
pub open spec fn opt_str(s: Option<&str>) -> Option<Seq<char>> {
    match s {
        Some(t) => Some(t@),
        None => None,
    }
}

/// A whole number in decimal.
pub open spec fn signed_decimal(n: int) -> Seq<char> {
    if n < 0 {
        seq!['-'] + decimal((-n) as nat)
    } else {
        decimal(n as nat)
    }
}

fn append_signed(out: &mut Vec<char>, n: i32)
    ensures
        final(out)@ == old(out)@ + signed_decimal(n as int),
{
    let wide: i64 = n as i64;
    if wide < 0 {
        out.push('-');
        append_decimal(out, (-wide) as u64);
        assert(out@ =~= old(out)@ + signed_decimal(n as int));
    } else {
        append_decimal(out, wide as u64);
    }
}

/// The opening of the session context.
pub open spec fn day_lines(day: Day, root: Seq<char>) -> Seq<char> {
    "# Right now\n\nToday is "@ + day.long + " ("@ + day.short + ") — week "@ + signed_decimal(
        day.week_year as int,
    ) + "-W"@ + two_digits(day.week as nat)
        + ".\nThis person's vault is the folder "@ + root
        + ". Everything you do happens inside it.\n\n"@
}

/// The lines on the notes.
#[verifier::opaque]
pub open spec fn note_lines(facts: VaultFacts) -> Seq<char> {
    "- Today's note: `"@ + shown_path(facts.daily_note@, facts.root@) + "` (make it from `"@
        + facts.daily_template@ + "` when it isn't there yet).\n"@ + (match facts.weekly_note {
        Some(weekly) => "- This week's note: `"@ + shown_path(weekly@, facts.root@) + "` (from `"@
            + facts.weekly_template@ + "`).\n"@,
        None => Seq::empty(),
    })
}

/// The line on the tasks.
#[verifier::opaque]
pub open spec fn task_line(facts: VaultFacts) -> Seq<char> {
    "- Tasks: `"@ + facts.backlog_file@ + "`, under the headings `"@ + facts.soon_heading@
        + "`, `"@ + facts.someday_heading@ + "` and `"@ + facts.completed_heading@ + "`.\n"@
}

/// The line on the day's plan.
#[verifier::opaque]
pub open spec fn plan_line(heading: Seq<char>) -> Seq<char> {
    if trim(heading).len() > 0 {
        "- The day's plan lives under the `"@ + trim(heading)
            + "` heading of the daily note.\n"@
    } else {
        Seq::empty()
    }
}

/// The lines on where notes and tasks live.
pub open spec fn place_lines(facts: VaultFacts, has_profile: bool) -> Seq<char> {
    note_lines(facts) + task_line(facts) + plan_line(facts.planner_heading@) + (if has_profile {
        PROFILE_LINE@
    } else {
        Seq::empty()
    })
}

/// The line on the vault's profile.
pub const PROFILE_LINE: &'static str = "- `profile.md` says who this person is and what you may look at — read it before you start.\n";

/// The line for a vault without a language.
pub const NO_LANGUAGE: &'static str = "No language has been set for this vault, so answer in whatever language the person writes to you in.\n";

/// The line for a vault without routines.
pub const NO_ROUTINES: &'static str = "None are installed yet. `skills/thock/new-routine.md` is the ritual that builds one, and the Routines panel is where they are added.\n";

/// What stands above the memory index.
pub const MEMORY_GUIDE: &'static str = "This is `memory/index.md`, what past sessions learned about this person. Treat it as things you already know. Where a line points at a page under `memory/`, open that page when the conversation touches it. When they tell you something that will still be true next month, or correct you, add one dated line to `memory/inbox.md`; the Reflect ritual files it. Never edit `memory/index.md` or the other memory pages outside that ritual.\n\n";

/// What stands in place of a memory index.
pub const NO_MEMORY: &'static str = "Nothing yet: no session has learned anything about this person, or the `memory/` folder is missing. When they tell you something that will still be true next month, add one dated line to `memory/inbox.md` (create it if needed); the Reflect ritual files it.\n";

/// The language section.
pub open spec fn language_lines(label: Option<Seq<char>>) -> Seq<char> {
    "\n## Language\n\n"@ + (match label {
        Some(l) => "This vault is set to "@ + l
            + ". Speak and write in it, from your first greeting onwards.\n"@,
        None => NO_LANGUAGE@,
    })
}

/// A ritual as the context names it.
pub open spec fn ritual(skill: RoutineSkill) -> Seq<char> {
    skill.name@ + " (`"@ + skill.file@ + "`)"@
}

/// A routine's lines.
pub open spec fn routine_lines(r: RoutineManifest) -> Seq<char> {
    "- **"@ + r.name@ + "** — `routines/"@ + r.id@ + "/`, explained in `"@ + r.doc@ + "`.\n"@ + (
    if r.skills@.len() > 0 {
        "  Rituals: "@ + join(r.skills@.map_values(|s: RoutineSkill| ritual(s)), ", "@) + ".\n"@
    } else {
        Seq::empty()
    })
}

/// The lines of all routines.
pub open spec fn all_routine_lines(routines: Seq<RoutineManifest>) -> Seq<char>
    decreases routines.len(),
{
    if routines.len() == 0 {
        Seq::empty()
    } else {
        all_routine_lines(routines.drop_last()) + routine_lines(routines.last())
    }
}

/// The routines section.
pub open spec fn routines_section(routines: Seq<RoutineManifest>) -> Seq<char> {
    "\n## Routines\n\n"@ + (if routines.len() == 0 {
        NO_ROUTINES@
    } else {
        all_routine_lines(routines)
    })
}

/// The memory section.
pub open spec fn memory_section(index: Option<Seq<char>>) -> Seq<char> {
    "\n## What you already know\n\n"@ + (match index {
        Some(i) => MEMORY_GUIDE@ + i + seq!['\n'],
        None => NO_MEMORY@,
    })
}

/// The live facts that a session starts with.
pub open spec fn session_context(
    facts: VaultFacts,
    routines: Seq<RoutineManifest>,
    has_profile: bool,
    memory_index: Option<Seq<char>>,
    day: Day,
) -> Seq<char> {
    day_lines(day, facts.root@) + place_lines(facts, has_profile) + language_lines(
        vault_language(facts.language),
    ) + routines_section(routines) + memory_section(memory_index)
}

fn append_day(out: &mut Vec<char>, day: &DayNames, root: &str)
    ensures
        final(out)@ == old(out)@ + day_lines(day@, root@),
{
    append_str(out, "# Right now\n\nToday is ");
    append_str(out, day.long.as_str());
    append_str(out, " (");
    append_str(out, day.short.as_str());
    append_str(out, ") — week ");
    append_signed(out, day.week_year);
    append_str(out, "-W");
    append_two_digits(out, day.week as u64);
    append_str(out, ".\nThis person's vault is the folder ");
    append_str(out, root);
    append_str(out, ". Everything you do happens inside it.\n\n");
    assert(out@ =~= old(out)@ + day_lines(day@, root@));
}

fn append_notes(out: &mut Vec<char>, facts: &VaultFacts)
    ensures
        final(out)@ == old(out)@ + note_lines(*facts),
{
    append_str(out, "- Today's note: `");
    append_str(out, vault_relative(facts.daily_note.as_str(), facts.root.as_str()).as_str());
    append_str(out, "` (make it from `");
    append_str(out, facts.daily_template.as_str());
    append_str(out, "` when it isn't there yet).\n");
    if let Some(weekly) = &facts.weekly_note {
        append_str(out, "- This week's note: `");
        append_str(out, vault_relative(weekly.as_str(), facts.root.as_str()).as_str());
        append_str(out, "` (from `");
        append_str(out, facts.weekly_template.as_str());
        append_str(out, "`).\n");
    }
    assert(out@ =~= old(out)@ + note_lines(*facts)) by {
        reveal(note_lines);
    }
}

fn append_tasks(out: &mut Vec<char>, facts: &VaultFacts)
    ensures
        final(out)@ == old(out)@ + task_line(*facts),
{
    append_str(out, "- Tasks: `");
    append_str(out, facts.backlog_file.as_str());
    append_str(out, "`, under the headings `");
    append_str(out, facts.soon_heading.as_str());
    append_str(out, "`, `");
    append_str(out, facts.someday_heading.as_str());
    append_str(out, "` and `");
    append_str(out, facts.completed_heading.as_str());
    append_str(out, "`.\n");
    assert(out@ =~= old(out)@ + task_line(*facts)) by {
        reveal(task_line);
    }
}

fn append_plan(out: &mut Vec<char>, heading: &str)
    ensures
        final(out)@ == old(out)@ + plan_line(heading@),
{
    let chars = to_chars(heading);
    let planner = trimmed(chars.as_slice());
    if planner.len() > 0 {
        append_str(out, "- The day's plan lives under the `");
        append(out, planner);
        append_str(out, "` heading of the daily note.\n");
    }
    assert(out@ =~= old(out)@ + plan_line(heading@)) by {
        reveal(plan_line);
    }
}

fn append_places(out: &mut Vec<char>, facts: &VaultFacts, has_profile: bool)
    ensures
        final(out)@ == old(out)@ + place_lines(*facts, has_profile),
{
    append_notes(out, facts);
    append_tasks(out, facts);
    append_plan(out, facts.planner_heading.as_str());
    if has_profile {
        append_str(out, PROFILE_LINE);
    }
    assert(out@ =~= old(out)@ + place_lines(*facts, has_profile));
}

fn append_language(out: &mut Vec<char>, language: &Option<LanguageConfig>)
    ensures
        final(out)@ == old(out)@ + language_lines(vault_language(*language)),
{
    append_str(out, "\n## Language\n\n");
    match language_label(language) {
        Some(label) => {
            append_str(out, "This vault is set to ");
            append_str(out, label.as_str());
            append_str(out, ". Speak and write in it, from your first greeting onwards.\n");
        },
        None => {
            append_str(out, NO_LANGUAGE);
        },
    }
    assert(out@ =~= old(out)@ + language_lines(vault_language(*language)));
}

fn append_routine(out: &mut Vec<char>, r: &RoutineManifest)
    ensures
        final(out)@ == old(out)@ + routine_lines(*r),
{
    append_str(out, "- **");
    append_str(out, r.name.as_str());
    append_str(out, "** — `routines/");
    append_str(out, r.id.as_str());
    append_str(out, "/`, explained in `");
    append_str(out, r.doc.as_str());
    append_str(out, "`.\n");
    if r.skills.len() > 0 {
        let ghost rituals = r.skills@.map_values(|s: RoutineSkill| ritual(s));
        let mut parts: Vec<Vec<char>> = Vec::new();
        let mut i: usize = 0;
        while i < r.skills.len()
            invariant
                i <= r.skills@.len(),
                rituals == r.skills@.map_values(|s: RoutineSkill| ritual(s)),
                texts(parts@) == rituals.take(i as int),
            decreases r.skills@.len() - i,
        {
            let ghost before = parts@;
            let mut part: Vec<char> = to_chars(r.skills[i].name.as_str());
            append_str(&mut part, " (`");
            append_str(&mut part, r.skills[i].file.as_str());
            append_str(&mut part, "`)");
            assert(part@ =~= rituals[i as int]);
            parts.push(part);
            assert(texts(parts@) =~= texts(before).push(part@));
            assert(rituals.take(i + 1) =~= rituals.take(i as int).push(part@));
            i = i + 1;
        }
        assert(rituals.take(rituals.len() as int) =~= rituals);
        let list = crate::lines::joined(&parts, to_chars(", ").as_slice());
        append_str(out, "  Rituals: ");
        append(out, list.as_slice());
        append_str(out, ".\n");
    }
    assert(out@ =~= old(out)@ + routine_lines(*r));
}

fn append_routines(out: &mut Vec<char>, routines: &[RoutineManifest])
    ensures
        final(out)@ == old(out)@ + routines_section(routines@),
{
    append_str(out, "\n## Routines\n\n");
    if routines.len() == 0 {
        append_str(out, NO_ROUTINES);
        assert(out@ =~= old(out)@ + routines_section(routines@));
        return;
    }
    let ghost base = out@;
    let mut i: usize = 0;
    assert(routines@.take(0) =~= Seq::<RoutineManifest>::empty());
    while i < routines.len()
        invariant
            i <= routines@.len(),
            out@ == base + all_routine_lines(routines@.take(i as int)),
        decreases routines@.len() - i,
    {
        let ghost before = out@;
        proof {
            assert(routines@.take(i + 1).drop_last() =~= routines@.take(i as int));
            assert(routines@.take(i + 1).last() == routines@[i as int]);
        }
        append_routine(out, &routines[i]);
        assert(out@ =~= base + all_routine_lines(routines@.take(i + 1)));
        i = i + 1;
    }
    assert(routines@.take(routines@.len() as int) =~= routines@);
    assert(out@ =~= old(out)@ + routines_section(routines@));
}

/// The live facts that a session needs and no file in the vault carries, for a
/// day given by its names.
pub fn compose_context(
    facts: &VaultFacts,
    routines: &[RoutineManifest],
    has_profile: bool,
    memory_index: Option<&str>,
    day: &DayNames,
) -> (context: String)
    ensures
        context@ == session_context(
            *facts,
            routines@,
            has_profile,
            opt_str(memory_index),
            day@,
        ),
{
    let mut out: Vec<char> = Vec::new();
    append_day(&mut out, day, facts.root.as_str());
    append_places(&mut out, facts, has_profile);
    append_language(&mut out, &facts.language);
    append_routines(&mut out, routines);
    append_str(&mut out, "\n## What you already know\n\n");
    match memory_index {
        Some(index) => {
            append_str(&mut out, MEMORY_GUIDE);
            append_str(&mut out, index);
            out.push('\n');
        },
        None => {
            append_str(&mut out, NO_MEMORY);
        },
    }
    assert(out@ =~= session_context(
        *facts,
        routines@,
        has_profile,
        opt_str(memory_index),
        day@,
    ));
    from_chars(out.as_slice())
}

/// The live facts that a session needs and no file in the vault carries:
/// today's date, where this week's notes live, the language the vault was set
/// to, and which routines are installed. It is `None` where there is no such
/// day.
pub fn compose_vault_context(
    facts: &VaultFacts,
    routines: &[RoutineManifest],
    has_profile: bool,
    memory_index: Option<&str>,
    today: Date,
) -> (context: Option<String>)
    ensures
        match context {
            Some(c) => day_of(today) is Some && c@ == session_context(
                *facts,
                routines@,
                has_profile,
                opt_str(memory_index),
                day_of(today)->0,
            ),
            None => day_of(today) is None,
        },
{
    let long = format_date(today.year, today.month, today.day, "%A, %-d %B %Y");
    let short = format_date(today.year, today.month, today.day, "%Y-%m-%d");
    let week = iso_week(today.year, today.month, today.day);
    match (long, short, week) {
        (Some(long), Some(short), Some((week_year, week))) => {
            let day = DayNames { long, short, week_year, week };
            Some(compose_context(facts, routines, has_profile, memory_index, &day))
        },
        _ => None,
    }
}

/// The session context of a workspace: one that is no vault has none, which
/// clears any context that an earlier session left behind.
pub fn gather_vault_context(
    facts: Option<&VaultFacts>,
    routines: &[RoutineManifest],
    has_profile: bool,
    memory_index: Option<&str>,
    today: Date,
) -> (context: Option<String>)
    ensures
        match context {
            Some(c) => facts is Some && day_of(today) is Some && c@ == session_context(
                *facts->0,
                routines@,
                has_profile,
                opt_str(memory_index),
                day_of(today)->0,
            ),
            None => facts is None || day_of(today) is None,
        },
{
    match facts {
        Some(f) => compose_vault_context(f, routines, has_profile, memory_index, today),
        None => None,
    }
}

/// One step in writing a session's configuration folder.
#[derive(Debug, Clone, PartialEq)]
pub enum ConfigStep {
    CreateDir(String),
    Write(String, String),
    /// Nothing happens where the file is not there.
    Remove(String),
}

/// What a step does.
pub enum Step {
    CreateDir(Seq<char>),
    Write(Seq<char>, Seq<char>),
    Remove(Seq<char>),
}

impl View for ConfigStep {
    type V = Step;

    open spec fn view(&self) -> Step {
        match *self {
            ConfigStep::CreateDir(p) => Step::CreateDir(p@),
            ConfigStep::Write(p, c) => Step::Write(p@, c@),
            ConfigStep::Remove(p) => Step::Remove(p@),
        }
    }
}

/// The steps that write a session's configuration folder.
pub open spec fn config_steps(
    dir: Seq<char>,
    settings: Seq<char>,
    prompt: Seq<char>,
    guard: Seq<char>,
    context: Option<Seq<char>>,
    windows: bool,
) -> Seq<Step> {
    let extensions = joined_path(dir, "extensions"@, windows);
    let context_path = joined_path(dir, "APPEND_SYSTEM.md"@, windows);
    seq![
        Step::CreateDir(dir),
        Step::Write(joined_path(dir, "settings.json"@, windows), settings),
        Step::Write(joined_path(dir, "SYSTEM.md"@, windows), prompt),
        Step::CreateDir(extensions),
        Step::Write(joined_path(extensions, "vault-guard.ts"@, windows), guard),
        match context {
            Some(c) => Step::Write(context_path, c),
            None => Step::Remove(context_path),
        },
    ]
}

/// The steps that write a session's configuration folder, in order: the
/// settings, the system prompt, the guard that refuses whole-file writes over a
/// note with content, and the vault's context, which is cleared where there is
/// none.
pub fn write_pi_config(
    dir: &str,
    model_id: &str,
    system_prompt: &str,
    guard: &str,
    vault_context: Option<&str>,
    windows: bool,
) -> (steps: Vec<ConfigStep>)
    ensures
        crate::sort::views(steps@) == config_steps(
            dir@,
            pretty_object(settings_fields(model_id@)),
            system_prompt@,
            guard@,
            match vault_context {
                Some(c) => Some(c@),
                None => None,
            },
            windows,
        ),
{
    let mut steps: Vec<ConfigStep> = Vec::new();
    steps.push(ConfigStep::CreateDir(own(dir)));
    let settings_path = join_path(dir, "settings.json", windows);
    steps.push(ConfigStep::Write(settings_path, pi_settings(model_id)));
    steps.push(ConfigStep::Write(join_path(dir, "SYSTEM.md", windows), own(system_prompt)));
    let extensions = join_path(dir, "extensions", windows);
    let guard_path = join_path(extensions.as_str(), "vault-guard.ts", windows);
    steps.push(ConfigStep::CreateDir(extensions));
    steps.push(ConfigStep::Write(guard_path, own(guard)));
    let context_path = join_path(dir, "APPEND_SYSTEM.md", windows);
    match vault_context {
        Some(context) => steps.push(ConfigStep::Write(context_path, own(context))),
        None => steps.push(ConfigStep::Remove(context_path)),
    }
    assert(crate::sort::views(steps@) =~= config_steps(
        dir@,
        pretty_object(settings_fields(model_id@)),
        system_prompt@,
        guard@,
        match vault_context {
            Some(c) => Some(c@),
            None => None,
        },
        windows,
    ));
    steps
}

/// The value of a variable in an environment.
pub open spec fn env_value(env: Seq<(String, String)>, key: Seq<char>) -> Option<Seq<char>>
    decreases env.len(),
{
    if env.len() == 0 {
        None
    } else if env[0].0@ == key {
        Some(env[0].1@)
    } else {
        env_value(env.skip(1), key)
    }
}

/// The value of a variable in an environment.
pub fn env_get(env: &Vec<(String, String)>, key: &str) -> (value: Option<String>)
    ensures
        text_of(value) == env_value(env@, key@),
{
    let mut i: usize = 0;
    assert(env@.skip(0) =~= env@);
    while i < env.len()
        invariant
            i <= env@.len(),
            env_value(env@, key@) == env_value(env@.skip(i as int), key@),
        decreases env@.len() - i,
    {
        assert(env@.skip(i as int)[0] == env@[i as int]);
        assert(env@.skip(i as int).skip(1) =~= env@.skip(i + 1));
        if same_str(env[i].0.as_str(), key) {
            return Some(env[i].1.clone());
        }
        i = i + 1;
    }
    None
}

/// Sets a variable; all others stay.
pub fn env_set(env: &mut Vec<(String, String)>, key: &str, value: &str)
    ensures
        forall|k: Seq<char>| #[trigger]
            env_value(final(env)@, k) == (if k == key@ {
                Some(value@)
            } else {
                env_value(old(env)@, k)
            }),
{
    let ghost before = env@;
    let pair = (own(key), own(value));
    env.insert(0, pair);
    let ghost after = env@;
    assert(after.skip(1) =~= before);
    assert forall|k: Seq<char>| #[trigger]
        env_value(after, k) == (if k == key@ {
            Some(value@)
        } else {
            env_value(before, k)
        }) by {}
}

/// The command that starts the adapter.
#[derive(Debug, Clone, PartialEq)]
pub struct AgentServerCommand {
    pub path: String,
    pub args: Vec<String>,
    /// Of two pairs with one name the first counts.
    pub env: Vec<(String, String)>,
}

/// Why there is no launch command.
#[derive(Debug, Clone, Copy, PartialEq, Eq, Structural)]
pub enum LaunchCommandError {
    /// The Node binary has no parent directory.
    NoParent,
    /// A folder's path holds what no entry of `PATH` can hold: a colon, or on
    /// Windows a double quote.
    Unjoinable,
}

/// What separates the entries of `PATH`.
pub open spec fn path_separator(windows: bool) -> char {
    if windows {
        ';'
    } else {
        ':'
    }
}

/// Whether a folder cannot be an entry of `PATH`.
pub open spec fn is_unjoinable(dir: Seq<char>, windows: bool) -> bool {
    if windows {
        dir.contains('"')
    } else {
        dir.contains(':')
    }
}

/// A folder as an entry of `PATH`: on Windows one with a semicolon is quoted.
pub open spec fn path_entry(dir: Seq<char>, windows: bool) -> Seq<char> {
    if windows && dir.contains(';') {
        seq!['"'] + dir + seq!['"']
    } else {
        dir
    }
}

/// The entries of a Windows search path that are complete, the one that is being
/// read, and whether a quote is open: a semicolon inside quotes separates
/// nothing, and the quotes are no part of an entry.
pub open spec fn windows_split(path: Seq<char>) -> (Seq<Seq<char>>, Seq<char>, bool)
    decreases path.len(),
{
    if path.len() == 0 {
        (Seq::empty(), Seq::empty(), false)
    } else {
        let (done, current, quoted) = windows_split(path.drop_last());
        let c = path.last();
        if c == '"' {
            (done, current, !quoted)
        } else if c == ';' && !quoted {
            (done.push(current), Seq::empty(), false)
        } else {
            (done, current.push(c), quoted)
        }
    }
}

/// A search path as its entries are written: on Windows each is quoted where it
/// needs to be, and only there.
pub open spec fn rejoined(path: Seq<char>, windows: bool) -> Seq<char> {
    if windows {
        let (done, current, _) = windows_split(path);
        join(
            done.push(current).map_values(|dir: Seq<char>| path_entry(dir, true)),
            seq![';'],
        )
    } else {
        path
    }
}

/// The search path of the adapter: the shim and the managed Node come first.
pub open spec fn agent_path(
    bin_dir: Seq<char>,
    node_dir: Seq<char>,
    inherited: Seq<char>,
    windows: bool,
) -> Seq<char> {
    path_entry(bin_dir, windows) + seq![path_separator(windows)] + path_entry(node_dir, windows)
        + seq![path_separator(windows)] + rejoined(inherited, windows)
}

/// Whether a text holds a character.
fn has_char(s: &[char], c: char) -> (yes: bool)
    ensures
        yes == s@.contains(c),
{
    let at: usize = crate::lines::char_position(s, c, 0);
    proof {
        crate::lines::lemma_next_char(s@, c, 0);
        if at < s@.len() {
            assert(s@[at as int] == c);
        } else {
            assert(!s@.contains(c));
        }
    }
    at < s.len()
}

/// Whether a folder cannot be an entry of `PATH`.
fn cannot_join(dir: &str, windows: bool) -> (yes: bool)
    ensures
        yes == is_unjoinable(dir@, windows),
{
    has_char(
        to_chars(dir).as_slice(),
        if windows {
            '"'
        } else {
            ':'
        },
    )
}

/// A folder as an entry of `PATH`.
fn entry_of(dir: &[char], windows: bool) -> (entry: Vec<char>)
    ensures
        entry@ == path_entry(dir@, windows),
{
    let mut entry: Vec<char> = Vec::new();
    if windows && has_char(dir, ';') {
        entry.push('"');
        append(&mut entry, dir);
        entry.push('"');
        assert(entry@ =~= seq!['"'] + dir@ + seq!['"']);
    } else {
        append(&mut entry, dir);
        assert(entry@ =~= dir@);
    }
    entry
}

/// A search path as its entries are written.
fn rejoin(path: &str, windows: bool) -> (out: Vec<char>)
    ensures
        out@ == rejoined(path@, windows),
{
    let chars = to_chars(path);
    if !windows {
        return chars;
    }
    let mut entries: Vec<Vec<char>> = Vec::new();
    let mut current: Vec<char> = Vec::new();
    let mut quoted: bool = false;
    let mut i: usize = 0;
    assert(path@.take(0) =~= Seq::<char>::empty());
    assert(texts(entries@) =~= Seq::<Seq<char>>::empty().map_values(
        |dir: Seq<char>| path_entry(dir, true),
    ));
    while i < chars.len()
        invariant
            i <= chars@.len(),
            chars@ == path@,
            texts(entries@) == windows_split(path@.take(i as int)).0.map_values(
                |dir: Seq<char>| path_entry(dir, true),
            ),
            current@ == windows_split(path@.take(i as int)).1,
            quoted == windows_split(path@.take(i as int)).2,
        decreases chars@.len() - i,
    {
        let ghost done = windows_split(path@.take(i as int)).0;
        assert(path@.take(i + 1).drop_last() =~= path@.take(i as int));
        assert(path@.take(i + 1).last() == chars@[i as int]);
        let c: char = chars[i];
        if c == '"' {
            quoted = !quoted;
        } else if c == ';' && !quoted {
            let ghost before = entries@;
            let ghost dir = current@;
            entries.push(entry_of(current.as_slice(), true));
            current = Vec::new();
            assert(texts(entries@) =~= texts(before).push(path_entry(dir, true)));
            assert(done.push(dir).map_values(|d: Seq<char>| path_entry(d, true))
                =~= done.map_values(|d: Seq<char>| path_entry(d, true)).push(
                path_entry(dir, true),
            ));
            assert(current@ =~= Seq::<char>::empty());
        } else {
            current.push(c);
        }
        i = i + 1;
    }
    assert(path@.take(path@.len() as int) =~= path@);
    let ghost done = windows_split(path@).0;
    let ghost before = entries@;
    let ghost dir = current@;
    entries.push(entry_of(current.as_slice(), true));
    proof {
        assert(texts(entries@) =~= texts(before).push(path_entry(dir, true)));
        assert(done.push(dir).map_values(|d: Seq<char>| path_entry(d, true)) =~= done.map_values(
            |d: Seq<char>| path_entry(d, true),
        ).push(path_entry(dir, true)));
    }
    let mut sep: Vec<char> = Vec::new();
    sep.push(';');
    assert(sep@ =~= seq![';']);
    joined(&entries, sep.as_slice())
}

/// The search path that the adapter inherits: the environment's own, else the
/// process's, else nothing.
pub open spec fn inherited_path(
    env: Seq<(String, String)>,
    process_path: Option<Seq<char>>,
) -> Seq<char> {
    match env_value(env, "PATH"@) {
        Some(p) => p,
        None => match process_path {
            Some(p) => p,
            None => Seq::empty(),
        },
    }
}

/// The variables that the launch sets.
pub open spec fn launch_value(
    key: Seq<char>,
    path: Seq<char>,
    api_key: Seq<char>,
    config_dir: Seq<char>,
    pi_command: Seq<char>,
) -> Option<Seq<char>> {
    if key == "PI_SKIP_VERSION_CHECK"@ {
        Some("1"@)
    } else if key == "PI_ACP_PI_COMMAND"@ {
        Some(pi_command)
    } else if key == "PI_CODING_AGENT_DIR"@ {
        Some(config_dir)
    } else if key == "OPENROUTER_API_KEY"@ {
        Some(api_key)
    } else if key == "PATH"@ {
        Some(path)
    } else {
        None
    }
}

/// The adapter's launch command. `base_env` is the user's shell environment;
/// the gateway key, the private configuration folder, and a search path that
/// resolves the managed Node and the shim are layered on top.
pub fn launch_command(
    harness: &InstalledHarness,
    pi_config_dir: &str,
    api_key: &str,
    base_env: Vec<(String, String)>,
    process_path: Option<&str>,
    windows: bool,
) -> (command: Result<AgentServerCommand, LaunchCommandError>)
    ensures
        ({
            let node_dir = parent_on(harness.node_binary@, windows);
            let inherited = inherited_path(
                base_env@,
                match process_path {
                    Some(p) => Some(p@),
                    None => None,
                },
            );
            match command {
                Ok(c) => {
                    &&& node_dir is Some
                    &&& !is_unjoinable(harness.bin_dir@, windows)
                    &&& !is_unjoinable(node_dir->0, windows)
                    &&& c.path@ == harness.node_binary@
                    &&& strings(c.args@) == seq![harness.pi_acp_entry@]
                    &&& forall|k: Seq<char>| #[trigger]
                        env_value(c.env@, k) == (match launch_value(
                            k,
                            agent_path(harness.bin_dir@, node_dir->0, inherited, windows),
                            api_key@,
                            pi_config_dir@,
                            harness.pi_command@,
                        ) {
                            Some(v) => Some(v),
                            None => env_value(base_env@, k),
                        })
                },
                Err(e) => match node_dir {
                    Some(dir) => e == LaunchCommandError::Unjoinable && (is_unjoinable(
                        harness.bin_dir@,
                        windows,
                    ) || is_unjoinable(dir, windows)),
                    None => e == LaunchCommandError::NoParent,
                },
            }
        }),
{
    let node_dir: String = match path_parent_on(harness.node_binary.as_str(), windows) {
        Some(dir) => dir,
        None => {
            return Err(LaunchCommandError::NoParent);
        },
    };
    if cannot_join(harness.bin_dir.as_str(), windows) || cannot_join(node_dir.as_str(), windows) {
        return Err(LaunchCommandError::Unjoinable);
    }
    let inherited: String = match env_get(&base_env, "PATH") {
        Some(p) => p,
        None => own(
            match process_path {
                Some(p) => p,
                None => "",
            },
        ),
    };
    let separator: char = if windows {
        ';'
    } else {
        ':'
    };
    let mut path = entry_of(to_chars(harness.bin_dir.as_str()).as_slice(), windows);
    path.push(separator);
    append(&mut path, entry_of(to_chars(node_dir.as_str()).as_slice(), windows).as_slice());
    path.push(separator);
    append(&mut path, rejoin(inherited.as_str(), windows).as_slice());
    proof {
        reveal_strlit("");
        assert(inherited@ =~= inherited_path(
            base_env@,
            match process_path {
                Some(p) => Some(p@),
                None => None,
            },
        ));
        assert(path@ =~= agent_path(harness.bin_dir@, node_dir@, inherited@, windows));
    }
    let path = from_chars(path.as_slice());
    let mut env = base_env;
    proof {
        reveal_strlit("PATH");
        reveal_strlit("OPENROUTER_API_KEY");
        reveal_strlit("PI_CODING_AGENT_DIR");
        reveal_strlit("PI_ACP_PI_COMMAND");
        reveal_strlit("PI_SKIP_VERSION_CHECK");
    }
    env_set(&mut env, "PATH", path.as_str());
    env_set(&mut env, "OPENROUTER_API_KEY", api_key);
    env_set(&mut env, "PI_CODING_AGENT_DIR", pi_config_dir);
    env_set(&mut env, "PI_ACP_PI_COMMAND", harness.pi_command.as_str());
    env_set(&mut env, "PI_SKIP_VERSION_CHECK", "1");
    let mut args: Vec<String> = Vec::new();
    args.push(harness.pi_acp_entry.clone());
    assert(strings(args@) =~= seq![harness.pi_acp_entry@]);
    Ok(AgentServerCommand { path: harness.node_binary.clone(), args, env })
}

} // verus!
