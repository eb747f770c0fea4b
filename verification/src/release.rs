//! The decisions behind the provider release commands: their arguments,
//! semantic versions and their bumps, and which providers a build matrix
//! holds.
use vstd::prelude::*;

use crate::provider_map::{
    canonical_key, canonical_provider_key, detect_changed_providers, first_key_index, rebuilds_all,
    selected_by_change, strictly_sorted, texts, unknown_provider_message, ProviderMap,
};
use crate::text::{decimal, decimal_string, owned, push_char, push_str, same_text};

verus! {

/// A semantic version: its three numbers, and the text of its pre-release and
/// build parts (empty when absent).
#[derive(Debug, PartialEq, Eq)]
pub struct SemVersion {
    pub major: u64,
    pub minor: u64,
    pub patch: u64,
    pub pre: String,
    pub build: String,
}

impl SemVersion {
    /// The version as plain values.
    pub open spec fn parts(&self) -> (u64, u64, u64, Seq<char>, Seq<char>) {
        (self.major, self.minor, self.patch, self.pre@, self.build@)
    }
}

/// What `semver::Version::parse` makes of a text, when it accepts it.
pub uninterp spec fn semver_version_parse(text: Seq<char>) -> Option<(u64, u64, u64, Seq<char>, Seq<char>)>;

/// The message of the error `semver::Version::parse` gives for a text it
/// refuses.
pub uninterp spec fn semver_parse_error_text(text: Seq<char>) -> Seq<char>;

/// Calls `semver::Version::parse`. The contract claims that its outcome, the
/// version's parts or the error's message, is a function of the text alone.
#[verifier::external_body]
fn parse_semver(text: &str) -> (r: Result<SemVersion, String>)
    ensures
        match semver_version_parse(text@) {
            Some(t) => r matches Ok(v) && v.parts() == t,
            None => r matches Err(e) && e@ == semver_parse_error_text(text@),
        },
{
    match semver::Version::parse(text) {
        Ok(v) => Ok(
            SemVersion {
                major: v.major,
                minor: v.minor,
                patch: v.patch,
                pre: v.pre.as_str().to_string(),
                build: v.build.as_str().to_string(),
            },
        ),
        Err(e) => Err(e.to_string()),
    }
}

/// The text of a version: `major.minor.patch`, then `-pre` and `+build` when
/// those parts are not empty.
pub open spec fn version_text(v: (u64, u64, u64, Seq<char>, Seq<char>)) -> Seq<char> {
    decimal(v.0 as nat) + "."@ + decimal(v.1 as nat) + "."@ + decimal(v.2 as nat) + (if v.3.len() > 0 {
        "-"@ + v.3
    } else {
        Seq::empty()
    }) + (if v.4.len() > 0 {
        "+"@ + v.4
    } else {
        Seq::empty()
    })
}

impl SemVersion {
    /// The text of the version.
    pub fn to_text(&self) -> (out: String)
        ensures
            out@ == version_text(self.parts()),
    {
        let mut out = decimal_string(self.major);
        push_char(&mut out, '.');
        push_str(&mut out, decimal_string(self.minor).as_str());
        push_char(&mut out, '.');
        push_str(&mut out, decimal_string(self.patch).as_str());
        let ghost numbers = out@;
        if !self.pre.as_str().is_empty() {
            push_char(&mut out, '-');
            push_str(&mut out, self.pre.as_str());
        }
        let ghost with_pre = out@;
        if !self.build.as_str().is_empty() {
            push_char(&mut out, '+');
            push_str(&mut out, self.build.as_str());
        }
        proof {
            reveal_strlit(".");
            reveal_strlit("-");
            reveal_strlit("+");
            assert(numbers =~= decimal(self.major as nat) + "."@ + decimal(self.minor as nat) + "."@
                + decimal(self.patch as nat));
            assert(with_pre =~= numbers + (if self.pre@.len() > 0 {
                "-"@ + self.pre@
            } else {
                Seq::empty()
            }));
            assert(out@ =~= with_pre + (if self.build@.len() > 0 {
                "+"@ + self.build@
            } else {
                Seq::empty()
            }));
        }
        out
    }
}

/// How a version is bumped.
#[derive(Debug, Clone, Copy, PartialEq, Eq, Structural)]
pub enum VersionBump {
    Unchanged,
    Patch,
    Minor,
    Major,
}

/// The bump a name stands for: `none`, `patch`, `minor` or `major`.
pub open spec fn bump_named(name: Seq<char>) -> Option<VersionBump> {
    if name == "none"@ {
        Some(VersionBump::Unchanged)
    } else if name == "patch"@ {
        Some(VersionBump::Patch)
    } else if name == "minor"@ {
        Some(VersionBump::Minor)
    } else if name == "major"@ {
        Some(VersionBump::Major)
    } else {
        None
    }
}

/// The error for a bump name that is none of the four.
pub open spec fn bad_bump_message() -> Seq<char> {
    "version bump must be one of none, patch, minor, major"@
}

/// The bump a name stands for, or the error that it is none of `none`,
/// `patch`, `minor` and `major`.
pub fn parse_version_bump(name: &str) -> (r: Result<VersionBump, String>)
    ensures
        match bump_named(name@) {
            Some(b) => r == Ok::<VersionBump, String>(b),
            None => r matches Err(e) && e@ == bad_bump_message(),
        },
{
    proof {
        reveal_strlit("none");
        reveal_strlit("patch");
        reveal_strlit("minor");
        reveal_strlit("major");
        reveal_strlit("version bump must be one of none, patch, minor, major");
    }
    if same_text(name, "none") {
        Ok(VersionBump::Unchanged)
    } else if same_text(name, "patch") {
        Ok(VersionBump::Patch)
    } else if same_text(name, "minor") {
        Ok(VersionBump::Minor)
    } else if same_text(name, "major") {
        Ok(VersionBump::Major)
    } else {
        Err(owned("version bump must be one of none, patch, minor, major"))
    }
}

/// The number that a bump raises has room to grow.
pub open spec fn bump_fits(v: (u64, u64, u64, Seq<char>, Seq<char>), b: VersionBump) -> bool {
    match b {
        VersionBump::Unchanged => true,
        VersionBump::Patch => v.2 < u64::MAX,
        VersionBump::Minor => v.1 < u64::MAX,
        VersionBump::Major => v.0 < u64::MAX,
    }
}

/// A version after a bump: `patch` raises the patch number, `minor` raises
/// the minor number and resets the patch number, `major` raises the major
/// number and resets the other two; the pre-release and build parts stay.
pub open spec fn bumped(v: (u64, u64, u64, Seq<char>, Seq<char>), b: VersionBump) -> (u64, u64, u64, Seq<char>, Seq<char>) {
    match b {
        VersionBump::Unchanged => v,
        VersionBump::Patch => (v.0, v.1, (v.2 + 1) as u64, v.3, v.4),
        VersionBump::Minor => (v.0, (v.1 + 1) as u64, 0, v.3, v.4),
        VersionBump::Major => ((v.0 + 1) as u64, 0, 0, v.3, v.4),
    }
}

/// Applies a bump to a version.
pub fn bump_version(v: SemVersion, b: VersionBump) -> (out: SemVersion)
    requires
        bump_fits(v.parts(), b),
    ensures
        out.parts() == bumped(v.parts(), b),
{
    let mut v = v;
    match b {
        VersionBump::Unchanged => {},
        VersionBump::Patch => {
            v.patch = v.patch + 1;
        },
        VersionBump::Minor => {
            v.minor = v.minor + 1;
            v.patch = 0;
        },
        VersionBump::Major => {
            v.major = v.major + 1;
            v.minor = 0;
            v.patch = 0;
        },
    }
    v
}

/// The error for an existing version text that does not parse.
pub open spec fn bad_existing_version_message(text: Seq<char>) -> Seq<char> {
    "invalid existing version: "@ + semver_parse_error_text(text)
}

/// A provider's existing version text bumped by the named bump: the error of
/// the parse, else the error of the bump name, else `None` when the number to
/// raise is already the largest, else the bumped version.
pub fn bumped_version(existing: &str, bump: &str) -> (r: Result<Option<SemVersion>, String>)
    ensures
        match semver_version_parse(existing@) {
            None => r matches Err(e) && e@ == bad_existing_version_message(existing@),
            Some(v) => match bump_named(bump@) {
                None => r matches Err(e) && e@ == bad_bump_message(),
                Some(b) => if bump_fits(v, b) {
                    r matches Ok(Some(out)) && out.parts() == bumped(v, b)
                } else {
                    r matches Ok(None)
                },
            },
        },
{
    let v = match parse_semver(existing) {
        Ok(v) => v,
        Err(e) => {
            let mut msg = owned("invalid existing version: ");
            push_str(&mut msg, e.as_str());
            proof {
                reveal_strlit("invalid existing version: ");
            }
            return Err(msg);
        },
    };
    let b = parse_version_bump(bump)?;
    let fits = match b {
        VersionBump::Unchanged => true,
        VersionBump::Patch => v.patch < u64::MAX,
        VersionBump::Minor => v.minor < u64::MAX,
        VersionBump::Major => v.major < u64::MAX,
    };
    if fits {
        Ok(Some(bump_version(v, b)))
    } else {
        Ok(None)
    }
}

/// A `provider-version` command.
#[derive(Debug, PartialEq, Eq)]
pub enum VersionCommand {
    /// Print every provider with its version.
    ListVersions,
    /// Set a provider's version.
    SetVersion { provider: String, version: SemVersion },
    /// Bump a provider's version by the named bump.
    BumpVersion { provider: String, bump: String },
}

/// The usage line of `provider-version`.
pub open spec fn version_usage() -> Seq<char> {
    "usage: cargo xtask provider-version <list|set|bump> ..."@
}

/// The usage line of `provider-version set`.
pub open spec fn set_usage() -> Seq<char> {
    "usage: cargo xtask provider-version set <provider> <version>"@
}

/// The usage line of `provider-version bump`.
pub open spec fn bump_usage() -> Seq<char> {
    "usage: cargo xtask provider-version bump <provider> <patch|minor|major>"@
}

/// The `provider-version` command that arguments stand for, or the error for
/// them: a usage line when arguments are missing or extra, `invalid version:`
/// with the parser's message when `set` is given a version that does not
/// parse, and `unknown provider-version subcommand:` for any other word.
pub fn parse_provider_version_args(args: &Vec<String>) -> (r: Result<VersionCommand, String>)
    ensures
        args@.len() == 0 ==> (r matches Err(e) && e@ == version_usage()),
        args@.len() > 0 && args@[0]@ == "list"@ ==> r matches Ok(VersionCommand::ListVersions),
        args@.len() > 0 && args@[0]@ == "set"@ ==> if args@.len() != 3 {
            r matches Err(e) && e@ == set_usage()
        } else {
            match semver_version_parse(args@[2]@) {
                Some(t) => r matches Ok(VersionCommand::SetVersion { provider, version }) && provider@ == args@[1]@
                    && version.parts() == t,
                None => r matches Err(e) && e@ == "invalid version: "@ + semver_parse_error_text(args@[2]@),
            }
        },
        args@.len() > 0 && args@[0]@ == "bump"@ ==> if args@.len() != 3 {
            r matches Err(e) && e@ == bump_usage()
        } else {
            r matches Ok(VersionCommand::BumpVersion { provider, bump }) && provider@ == args@[1]@ && bump@
                == args@[2]@
        },
        args@.len() > 0 && args@[0]@ != "list"@ && args@[0]@ != "set"@ && args@[0]@ != "bump"@
            ==> (r matches Err(e) && e@ == "unknown provider-version subcommand: "@ + args@[0]@),
{
    proof {
        reveal_strlit("list");
        reveal_strlit("set");
        reveal_strlit("bump");
        reveal_strlit("usage: cargo xtask provider-version <list|set|bump> ...");
        reveal_strlit("usage: cargo xtask provider-version set <provider> <version>");
        reveal_strlit("usage: cargo xtask provider-version bump <provider> <patch|minor|major>");
        reveal_strlit("invalid version: ");
        reveal_strlit("unknown provider-version subcommand: ");
        assert("list"@.len() == 4 && "set"@.len() == 3 && "bump"@.len() == 4);
        assert("list"@[0] == 'l' && "bump"@[0] == 'b');
    }
    if args.len() == 0 {
        return Err(owned("usage: cargo xtask provider-version <list|set|bump> ..."));
    }
    let sub = args[0].as_str();
    if same_text(sub, "list") {
        Ok(VersionCommand::ListVersions)
    } else if same_text(sub, "set") {
        if args.len() != 3 {
            return Err(owned("usage: cargo xtask provider-version set <provider> <version>"));
        }
        match parse_semver(args[2].as_str()) {
            Ok(version) => Ok(VersionCommand::SetVersion { provider: owned(args[1].as_str()), version }),
            Err(e) => {
                let mut msg = owned("invalid version: ");
                push_str(&mut msg, e.as_str());
                Err(msg)
            },
        }
    } else if same_text(sub, "bump") {
        if args.len() != 3 {
            return Err(
                owned("usage: cargo xtask provider-version bump <provider> <patch|minor|major>"),
            );
        }
        Ok(VersionCommand::BumpVersion { provider: owned(args[1].as_str()), bump: owned(args[2].as_str()) })
    } else {
        let mut msg = owned("unknown provider-version subcommand: ");
        push_str(&mut msg, sub);
        Err(msg)
    }
}

/// The arguments of `provider-matrix`: which provider (`all` by default),
/// the file listing changed paths, if any, and the version bump (`none` by
/// default).
#[derive(Debug, PartialEq, Eq)]
pub struct MatrixArgs {
    pub provider: String,
    pub changed_files: Option<String>,
    pub version_bump: String,
}

/// The text of an optional string.
pub open spec fn opt_text(o: Option<String>) -> Option<Seq<char>> {
    match o {
        Some(s) => Some(s@),
        None => None,
    }
}

/// The matrix arguments read from position `i` on, starting from the values
/// given: each flag takes the next argument as its value.
pub open spec fn matrix_args_from(
    args: Seq<Seq<char>>,
    i: int,
    provider: Seq<char>,
    changed: Option<Seq<char>>,
    bump: Seq<char>,
) -> Result<(Seq<char>, Option<Seq<char>>, Seq<char>), Seq<char>>
    decreases args.len() - i,
{
    if i < 0 || i >= args.len() {
        Ok((provider, changed, bump))
    } else if args[i] == "--provider"@ {
        if i + 1 < args.len() {
            matrix_args_from(args, i + 2, args[i + 1], changed, bump)
        } else {
            Err("--provider requires a value"@)
        }
    } else if args[i] == "--changed-files"@ {
        if i + 1 < args.len() {
            matrix_args_from(args, i + 2, provider, Some(args[i + 1]), bump)
        } else {
            Err("--changed-files requires a value"@)
        }
    } else if args[i] == "--version-bump"@ {
        if i + 1 < args.len() {
            matrix_args_from(args, i + 2, provider, changed, args[i + 1])
        } else {
            Err("--version-bump requires a value"@)
        }
    } else {
        Err("unknown provider-matrix argument: "@ + args[i])
    }
}

/// The matrix arguments, or the first error: a flag without its value, an
/// unknown argument, or a version bump that is not one of the four names.
pub open spec fn matrix_args(args: Seq<Seq<char>>) -> Result<(Seq<char>, Option<Seq<char>>, Seq<char>), Seq<char>> {
    match matrix_args_from(args, 0, "all"@, None, "none"@) {
        Ok(t) => if bump_named(t.2) is Some {
            Ok(t)
        } else {
            Err(bad_bump_message())
        },
        Err(e) => Err(e),
    }
}

/// The `provider-matrix` arguments, or the error for them.
pub fn parse_provider_matrix_args(args: &Vec<String>) -> (r: Result<MatrixArgs, String>)
    ensures
        match matrix_args(texts(args@)) {
            Ok(t) => r matches Ok(m) && m.provider@ == t.0 && opt_text(m.changed_files) == t.1 && m.version_bump@ == t.2,
            Err(e) => r matches Err(msg) && msg@ == e,
        },
{
    proof {
        reveal_strlit("all");
        reveal_strlit("none");
        reveal_strlit("--provider");
        reveal_strlit("--changed-files");
        reveal_strlit("--version-bump");
        reveal_strlit("--provider requires a value");
        reveal_strlit("--changed-files requires a value");
        reveal_strlit("--version-bump requires a value");
        reveal_strlit("unknown provider-matrix argument: ");
    }
    let ghost a = texts(args@);
    let mut provider = owned("all");
    let mut changed: Option<String> = None;
    let mut bump = owned("none");
    let n = args.len();
    let mut i: usize = 0;
    while i < n
        invariant
            n == args@.len(),
            a == texts(args@),
            i <= n,
            matrix_args_from(a, 0, "all"@, None, "none"@) == matrix_args_from(a, i as int, provider@, opt_text(changed), bump@),
        decreases n - i,
    {
        let arg = args[i].as_str();
        assert(a[i as int] == arg@);
        if same_text(arg, "--provider") {
            if i + 1 >= n {
                return Err(owned("--provider requires a value"));
            }
            provider = owned(args[i + 1].as_str());
            assert(a[i + 1] == args@[i + 1]@);
            i = i + 2;
        } else if same_text(arg, "--changed-files") {
            if i + 1 >= n {
                return Err(owned("--changed-files requires a value"));
            }
            changed = Some(owned(args[i + 1].as_str()));
            assert(a[i + 1] == args@[i + 1]@);
            i = i + 2;
        } else if same_text(arg, "--version-bump") {
            if i + 1 >= n {
                return Err(owned("--version-bump requires a value"));
            }
            bump = owned(args[i + 1].as_str());
            assert(a[i + 1] == args@[i + 1]@);
            i = i + 2;
        } else {
            let mut msg = owned("unknown provider-matrix argument: ");
            push_str(&mut msg, arg);
            return Err(msg);
        }
    }
    match parse_version_bump(bump.as_str()) {
        Ok(_) => Ok(MatrixArgs { provider, changed_files: changed, version_bump: bump }),
        Err(e) => Err(e),
    }
}

/// Copies of some strings.
fn copy_texts(v: &Vec<String>) -> (out: Vec<String>)
    ensures
        texts(out@) == texts(v@),
{
    let mut out: Vec<String> = Vec::new();
    let n = v.len();
    for i in 0..n
        invariant
            n == v@.len(),
            texts(out@) == texts(v@).take(i as int),
    {
        let ghost before = texts(out@);
        out.push(owned(v[i].as_str()));
        assert(texts(out@) =~= before.push(v@[i as int]@));
        assert(texts(v@).take(i + 1) =~= texts(v@).take(i as int).push(v@[i as int]@));
    }
    assert(texts(v@).take(n as int) =~= texts(v@));
    out
}

/// The providers a build matrix holds: for `all`, those a list of changed
/// paths selects when there is one and every provider otherwise; for any
/// other name, the one provider it stands for, or `unknown provider: <name>`.
pub fn select_matrix_providers(map: &ProviderMap, provider: &str, changed: Option<&Vec<String>>) -> (r: Result<Vec<String>, String>)
    requires
        map.well_formed(),
    ensures
        provider@ == "all"@ ==> (r matches Ok(selected) && strictly_sorted(texts(selected@)) && match changed {
            Some(files) => forall|name: Seq<char>| #[trigger] texts(selected@).contains(name) <==> (if rebuilds_all(*map, files@) {
                map.has_key(name)
            } else {
                selected_by_change(*map, files@, name)
            }),
            None => texts(selected@) == map.keys(),
        }),
        provider@ != "all"@ ==> match canonical_key(*map, provider@) {
            Some(k) => r matches Ok(selected) && texts(selected@) == seq![k],
            None => r matches Err(e) && e@ == unknown_provider_message(provider@),
        },
{
    proof {
        reveal_strlit("all");
    }
    if same_text(provider, "all") {
        match changed {
            Some(files) => Ok(detect_changed_providers(map, files)),
            None => {
                let mut keys: Vec<String> = Vec::new();
                let n = map.providers.len();
                for i in 0..n
                    invariant
                        n == map.providers@.len(),
                        texts(keys@) == map.keys().take(i as int),
                {
                    let ghost before = texts(keys@);
                    keys.push(owned(map.providers[i].key.as_str()));
                    assert(texts(keys@) =~= before.push(map.providers@[i as int].key@));
                    assert(map.keys().take(i + 1) =~= map.keys().take(i as int).push(map.keys()[i as int]));
                }
                assert(map.keys().take(n as int) =~= map.keys());
                Ok(keys)
            },
        }
    } else {
        let key = canonical_provider_key(map, provider)?;
        let mut selected: Vec<String> = Vec::new();
        selected.push(key);
        assert(texts(selected@) =~= seq![selected@[0]@]);
        Ok(selected)
    }
}

/// One provider of a build matrix, before its version is read from its
/// manifest.
#[derive(Debug, PartialEq, Eq)]
pub struct MatrixEntryPlan {
    pub provider: String,
    pub package: String,
    pub manifest_path: String,
    pub depends_on: Vec<String>,
}

/// The error for a selected name that is no provider key.
pub open spec fn unknown_selected_message(name: Seq<char>) -> Seq<char> {
    "unknown provider selected: "@ + name
}

/// `r` is the matrix entry of the provider at position `j`, the first of
/// key `name`.
pub open spec fn plans_entry(map: ProviderMap, name: Seq<char>, j: int, r: Result<MatrixEntryPlan, String>) -> bool {
    &&& first_key_index(map, name, j)
    &&& r matches Ok(e)
    &&& e.provider@ == name
    &&& e.package@ == map.providers@[j].spec.package@
    &&& e.manifest_path@ == map.providers@[j].spec.manifest_path@
    &&& texts(e.depends_on@) == texts(map.providers@[j].spec.depends_on@)
}

/// The matrix entries of the selected providers, in order: each provider
/// with its package, manifest path and dependencies, or
/// `unknown provider selected: <name>` for a name that is no key.
pub fn matrix_plan(map: &ProviderMap, selected: &Vec<String>) -> (out: Vec<Result<MatrixEntryPlan, String>>)
    ensures
        out@.len() == selected@.len(),
        forall|i: int| 0 <= i < selected@.len() ==> (if map.has_key(selected@[i]@) {
            exists|j: int| plans_entry(*map, selected@[i]@, j, #[trigger] out@[i])
        } else {
            out@[i] matches Err(msg) && msg@ == unknown_selected_message(selected@[i]@)
        }),
{
    proof {
        reveal_strlit("unknown provider selected: ");
    }
    let mut out: Vec<Result<MatrixEntryPlan, String>> = Vec::new();
    let n = selected.len();
    for i in 0..n
        invariant
            n == selected@.len(),
            out@.len() == i,
            forall|k: int| 0 <= k < i ==> (if map.has_key(selected@[k]@) {
                exists|j: int| plans_entry(*map, selected@[k]@, j, #[trigger] out@[k])
            } else {
                out@[k] matches Err(msg) && msg@ == unknown_selected_message(selected@[k]@)
            }),
    {
        let name = selected[i].as_str();
        match crate::provider_map::key_index(map, name) {
            Some(j) => {
                let spec = &map.providers[j].spec;
                let e = MatrixEntryPlan {
                    provider: owned(name),
                    package: owned(spec.package.as_str()),
                    manifest_path: owned(spec.manifest_path.as_str()),
                    depends_on: copy_texts(&spec.depends_on),
                };
                proof {
                    assert(map.keys()[j as int] == name@);
                    assert(first_key_index(*map, name@, j as int));
                }
                out.push(Ok(e));
                assert(plans_entry(*map, selected@[i as int]@, j as int, out@[i as int]));
            },
            None => {
                let mut msg = owned("unknown provider selected: ");
                push_str(&mut msg, name);
                out.push(Err(msg));
            },
        }
    }
    out
}

} // verus!
