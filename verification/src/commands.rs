//! What each `fvm` command does with its arguments, decided before anything is
//! touched: `list`, `download`, `alias add|remove|show`, `select`, `remove`.

use vstd::prelude::*;
use crate::alias::Alias;
use crate::releases::{release_label, releases_matching, Channel, Release};
use crate::text::{contains_seq, indices_where, str_contains, str_equal};

verus! {

/// The characters of each string.
pub open spec fn views(v: Seq<String>) -> Seq<Seq<char>> {
    v.map_values(|s: String| s@)
}

/// The (directory, name) pair of each alias.
pub open spec fn alias_views(v: Seq<Alias>) -> Seq<(Seq<char>, Seq<char>)> {
    v.map_values(|a: Alias| a@)
}

/// One name holds the other: how a mistyped name is matched with known ones.
pub open spec fn is_similar(name: Seq<char>, query: Seq<char>) -> bool {
    contains_seq(name, query) || contains_seq(query, name)
}

/// Some alias is called `name`.
pub open spec fn has_alias_named(aliases: Seq<(Seq<char>, Seq<char>)>, name: Seq<char>) -> bool {
    exists|i: int| 0 <= i < aliases.len() && (#[trigger] aliases[i]).1 == name
}

/// Some alias belongs to the version in `dir`.
pub open spec fn has_alias_for(aliases: Seq<(Seq<char>, Seq<char>)>, dir: Seq<char>) -> bool {
    exists|i: int| 0 <= i < aliases.len() && (#[trigger] aliases[i]).0 == dir
}

/// The alias is called `name`.
pub open spec fn is_called(name: Seq<char>) -> spec_fn((Seq<char>, Seq<char>)) -> bool {
    |a: (Seq<char>, Seq<char>)| a.1 == name
}

/// The directory of the first alias called `name`.
pub open spec fn alias_target(aliases: Seq<(Seq<char>, Seq<char>)>, name: Seq<char>) -> Seq<char> {
    aliases.filter(is_called(name))[0].0
}

/// The names offered when `query` names neither an installed version nor an alias:
/// the similar installed versions, then the similar alias names.
pub open spec fn suggestions(
    installed: Seq<Seq<char>>,
    aliases: Seq<(Seq<char>, Seq<char>)>,
    query: Seq<char>,
) -> Seq<Seq<char>> {
    installed.filter(|n: Seq<char>| is_similar(n, query)) + aliases.filter(
        |a: (Seq<char>, Seq<char>)| is_similar(a.1, query),
    ).map_values(|a: (Seq<char>, Seq<char>)| a.1)
}

/// An alias added under a name that no alias had yet leads to its version:
/// after it is pushed, the name resolves to the alias's directory.
pub proof fn lemma_added_alias_resolves(
    aliases: Seq<(Seq<char>, Seq<char>)>,
    added: (Seq<char>, Seq<char>),
)
    requires
        !has_alias_named(aliases, added.1),
    ensures
        has_alias_named(aliases.push(added), added.1),
        alias_target(aliases.push(added), added.1) == added.0,
{
    let p = is_called(added.1);
    let all = aliases.push(added);
    assert(all[aliases.len() as int] == added);
    aliases.lemma_filter_push(added, p);
    assert(aliases.filter(p).len() == 0) by {
        if aliases.filter(p).len() > 0 {
            aliases.lemma_filter_pred(p, 0);
            aliases.lemma_filter_contains_rev(p, aliases.filter(p)[0]);
            let i = choose|i: int| 0 <= i < aliases.len() && aliases[i] == aliases.filter(p)[0];
            assert(aliases[i].1 == added.1);
        }
    }
    assert(all.filter(p)[0] == added);
}

/// After the aliases called `name` are removed, no alias is called `name`.
pub proof fn lemma_removed_alias_gone(aliases: Seq<(Seq<char>, Seq<char>)>, name: Seq<char>)
    ensures
        !has_alias_named(aliases.filter(|a: (Seq<char>, Seq<char>)| a.1 != name), name),
{
    let p = |a: (Seq<char>, Seq<char>)| a.1 != name;
    let kept = aliases.filter(p);
    assert forall|i: int| 0 <= i < kept.len() implies (#[trigger] kept[i]).1 != name by {
        aliases.lemma_filter_pred(p, i);
    }
}

/// After the aliases of the version in `dir` are removed, that version has no alias.
pub proof fn lemma_removed_version_unaliased(aliases: Seq<(Seq<char>, Seq<char>)>, dir: Seq<char>)
    ensures
        !has_alias_for(aliases.filter(|a: (Seq<char>, Seq<char>)| a.0 != dir), dir),
{
    let p = |a: (Seq<char>, Seq<char>)| a.0 != dir;
    let kept = aliases.filter(p);
    assert forall|i: int| 0 <= i < kept.len() implies (#[trigger] kept[i]).0 != dir by {
        aliases.lemma_filter_pred(p, i);
    }
}

/// A version has an alias exactly when some alias in the list, wherever it stands,
/// carries its directory.
pub proof fn lemma_has_alias_for_anywhere(
    before: Seq<(Seq<char>, Seq<char>)>,
    dir: Seq<char>,
    name: Seq<char>,
    after: Seq<(Seq<char>, Seq<char>)>,
)
    ensures
        has_alias_for(before + seq![(dir, name)] + after, dir),
        has_alias_for(before.push((dir, name)), dir),
{
    let all = before + seq![(dir, name)] + after;
    assert(all[before.len() as int] == (dir, name));
    let pushed = before.push((dir, name));
    assert(pushed[before.len() as int] == (dir, name));
}

/// A version has no alias when no alias in the list carries its directory.
pub proof fn lemma_no_alias_for(aliases: Seq<(Seq<char>, Seq<char>)>, dir: Seq<char>)
    requires
        forall|i: int| 0 <= i < aliases.len() ==> (#[trigger] aliases[i]).0 != dir,
    ensures
        !has_alias_for(aliases, dir),
{
}

/// A name is an alias exactly when some alias in the list, wherever it stands, has it.
pub proof fn lemma_has_alias_named_anywhere(
    before: Seq<(Seq<char>, Seq<char>)>,
    dir: Seq<char>,
    name: Seq<char>,
    after: Seq<(Seq<char>, Seq<char>)>,
)
    ensures
        has_alias_named(before + seq![(dir, name)] + after, name),
{
    let all = before + seq![(dir, name)] + after;
    assert(all[before.len() as int] == (dir, name));
}

/// The aliases that have no given property keep none of them after filtering.
proof fn lemma_filter_none(
    s: Seq<(Seq<char>, Seq<char>)>,
    p: spec_fn((Seq<char>, Seq<char>)) -> bool,
)
    requires
        forall|i: int| 0 <= i < s.len() ==> !p(#[trigger] s[i]),
    ensures
        s.filter(p).len() == 0,
{
    if s.filter(p).len() > 0 {
        s.lemma_filter_pred(p, 0);
        s.lemma_filter_contains_rev(p, s.filter(p)[0]);
        let i = choose|i: int| 0 <= i < s.len() && s[i] == s.filter(p)[0];
        assert(!p(s[i]));
    }
}

/// Filtering by a property that the first `before.len()` elements lack starts with the
/// element after them when it has the property.
proof fn lemma_filter_first(
    before: Seq<(Seq<char>, Seq<char>)>,
    x: (Seq<char>, Seq<char>),
    after: Seq<(Seq<char>, Seq<char>)>,
    p: spec_fn((Seq<char>, Seq<char>)) -> bool,
)
    requires
        forall|i: int| 0 <= i < before.len() ==> !p(#[trigger] before[i]),
        p(x),
    ensures
        (before + seq![x] + after).filter(p).len() > 0,
        (before + seq![x] + after).filter(p)[0] == x,
{
    lemma_filter_none(before, p);
    let none = Seq::<(Seq<char>, Seq<char>)>::empty();
    assert(seq![x] =~= none.push(x));
    none.lemma_filter_push(x, p);
    assert(none.filter(p) =~= none) by {
        reveal(Seq::filter);
    }
    let one = seq![x].filter(p);
    assert(one =~= seq![x]);
    Seq::filter_distributes_over_add(before, seq![x], p);
    let front = (before + seq![x]).filter(p);
    assert(front =~= seq![x]);
    Seq::filter_distributes_over_add(before + seq![x], after, p);
    let f = (before + seq![x] + after).filter(p);
    assert(f =~= front + after.filter(p));
}

/// A name leads to the directory of the first alias that has it, whatever follows.
pub proof fn lemma_alias_target_first(
    before: Seq<(Seq<char>, Seq<char>)>,
    dir: Seq<char>,
    name: Seq<char>,
    after: Seq<(Seq<char>, Seq<char>)>,
)
    requires
        forall|i: int| 0 <= i < before.len() ==> (#[trigger] before[i]).1 != name,
    ensures
        alias_target(before + seq![(dir, name)] + after, name) == dir,
{
    lemma_filter_first(before, (dir, name), after, is_called(name));
}

// ----- the command word -----

/// The commands of `fvm`.
#[derive(Clone, Copy, Debug, PartialEq, Eq, Structural)]
pub enum CommandKind {
    List,
    Download,
    Alias,
    Select,
    Remove,
    Show,
    Doctor,
    Unknown,
}

/// The command a word names.
pub open spec fn command_kind_of(word: Seq<char>) -> CommandKind {
    if word == "list"@ {
        CommandKind::List
    } else if word == "download"@ {
        CommandKind::Download
    } else if word == "alias"@ {
        CommandKind::Alias
    } else if word == "select"@ {
        CommandKind::Select
    } else if word == "remove"@ {
        CommandKind::Remove
    } else if word == "show"@ {
        CommandKind::Show
    } else if word == "doctor"@ {
        CommandKind::Doctor
    } else {
        CommandKind::Unknown
    }
}

/// The command that the first word of the command line names.
pub fn command_kind(word: &str) -> (k: CommandKind)
    ensures
        k == command_kind_of(word@),
{
    if str_equal(word, "list") {
        CommandKind::List
    } else if str_equal(word, "download") {
        CommandKind::Download
    } else if str_equal(word, "alias") {
        CommandKind::Alias
    } else if str_equal(word, "select") {
        CommandKind::Select
    } else if str_equal(word, "remove") {
        CommandKind::Remove
    } else if str_equal(word, "show") {
        CommandKind::Show
    } else if str_equal(word, "doctor") {
        CommandKind::Doctor
    } else {
        CommandKind::Unknown
    }
}

/// How many arguments a command that wants exactly one got.
#[derive(Clone, Copy, Debug, PartialEq, Eq, Structural)]
pub enum ArgCount {
    Missing,
    TooMany,
    One,
}

/// Checks that exactly one argument was given.
pub fn one_argument(args: &Vec<String>) -> (r: ArgCount)
    ensures
        args@.len() == 0 ==> r == ArgCount::Missing,
        args@.len() > 1 ==> r == ArgCount::TooMany,
        args@.len() == 1 ==> r == ArgCount::One,
{
    if args.len() == 0 {
        ArgCount::Missing
    } else if args.len() > 1 {
        ArgCount::TooMany
    } else {
        ArgCount::One
    }
}

// ----- list -----

/// What `list` was asked for.
#[derive(Clone, Copy, Debug, PartialEq, Eq, Structural)]
pub enum ListRequest {
    MissingChannel,
    TooManyArguments,
    Channel(Channel),
    /// A word that names no channel: nothing is listed.
    Unrecognized,
}

/// Reads the arguments of `list`: one of `stable`, `dev`, `beta`.
pub fn list_request(args: &Vec<String>) -> (r: ListRequest)
    ensures
        args@.len() == 0 ==> r == ListRequest::MissingChannel,
        args@.len() > 1 ==> r == ListRequest::TooManyArguments,
        args@.len() == 1 ==> r == (if args@[0]@ == "stable"@ {
            ListRequest::Channel(Channel::Stable)
        } else if args@[0]@ == "dev"@ {
            ListRequest::Channel(Channel::Dev)
        } else if args@[0]@ == "beta"@ {
            ListRequest::Channel(Channel::Beta)
        } else {
            ListRequest::Unrecognized
        }),
{
    if args.len() == 0 {
        return ListRequest::MissingChannel;
    }
    if args.len() > 1 {
        return ListRequest::TooManyArguments;
    }
    let word = args[0].as_str();
    if str_equal(word, "stable") {
        ListRequest::Channel(Channel::Stable)
    } else if str_equal(word, "dev") {
        ListRequest::Channel(Channel::Dev)
    } else if str_equal(word, "beta") {
        ListRequest::Channel(Channel::Beta)
    } else {
        ListRequest::Unrecognized
    }
}

// ----- download -----

/// What `download` does with the releases that match its argument.
#[derive(Debug)]
pub enum DownloadPlan {
    /// Exactly one release matches: download the release at this position.
    Download(usize),
    /// Any other number matches: show the releases at these positions.
    Choose(Vec<usize>),
}

/// Picks the release to download: the one release whose label holds `query`.
pub fn plan_download(releases: &Vec<Release>, query: &str) -> (r: DownloadPlan)
    ensures
        ({
            let m = indices_where(
                releases@.len(),
                |i: int|
                    contains_seq(release_label(releases@[i].version@, releases@[i].channel), query@),
            );
            if m.len() == 1 {
                r == DownloadPlan::Download(m[0])
            } else {
                r matches DownloadPlan::Choose(v) && v@ == m
            }
        }),
{
    let m = releases_matching(releases, query);
    if m.len() == 1 {
        DownloadPlan::Download(m[0])
    } else {
        DownloadPlan::Choose(m)
    }
}

// ----- name lookups -----

/// Whether `name` is one of `names`.
fn has_name(names: &Vec<String>, name: &str) -> (b: bool)
    ensures
        b == views(names@).contains(name@),
{
    let mut i: usize = 0;
    while i < names.len()
        invariant
            i <= names@.len(),
            forall|j: int| 0 <= j < i ==> names@[j]@ != name@,
        decreases names@.len() - i,
    {
        if str_equal(names[i].as_str(), name) {
            assert(views(names@)[i as int] == name@);
            return true;
        }
        i = i + 1;
    }
    proof {
        if views(names@).contains(name@) {
            let j = choose|j: int| 0 <= j < views(names@).len() && views(names@)[j] == name@;
            assert(names@[j]@ == name@);
        }
    }
    false
}

/// Whether some alias is called `name`.
fn alias_exists(aliases: &Vec<Alias>, name: &str) -> (b: bool)
    ensures
        b == has_alias_named(alias_views(aliases@), name@),
{
    let mut i: usize = 0;
    while i < aliases.len()
        invariant
            i <= aliases@.len(),
            forall|j: int| 0 <= j < i ==> aliases@[j].name@ != name@,
        decreases aliases@.len() - i,
    {
        if str_equal(aliases[i].name.as_str(), name) {
            assert(alias_views(aliases@)[i as int].1 == name@);
            return true;
        }
        i = i + 1;
    }
    proof {
        if has_alias_named(alias_views(aliases@), name@) {
            let j = choose|j: int|
                0 <= j < alias_views(aliases@).len() && (#[trigger] alias_views(aliases@)[j]).1
                    == name@;
            assert(aliases@[j].name@ == name@);
        }
    }
    false
}

/// Whether some alias belongs to the version in `dir`.
fn alias_exists_for(aliases: &Vec<Alias>, dir: &str) -> (b: bool)
    ensures
        b == has_alias_for(alias_views(aliases@), dir@),
{
    let mut i: usize = 0;
    while i < aliases.len()
        invariant
            i <= aliases@.len(),
            forall|j: int| 0 <= j < i ==> aliases@[j].dir_name@ != dir@,
        decreases aliases@.len() - i,
    {
        if str_equal(aliases[i].dir_name.as_str(), dir) {
            assert(alias_views(aliases@)[i as int].0 == dir@);
            return true;
        }
        i = i + 1;
    }
    proof {
        if has_alias_for(alias_views(aliases@), dir@) {
            let j = choose|j: int|
                0 <= j < alias_views(aliases@).len() && (#[trigger] alias_views(aliases@)[j]).0
                    == dir@;
            assert(aliases@[j].dir_name@ == dir@);
        }
    }
    false
}

/// The directory of the first alias called `name`, which must exist.
fn alias_dir(aliases: &Vec<Alias>, name: &str) -> (r: String)
    requires
        has_alias_named(alias_views(aliases@), name@),
    ensures
        r@ == alias_target(alias_views(aliases@), name@),
{
    let ghost all = alias_views(aliases@);
    let ghost p = is_called(name@);
    let mut i: usize = 0;
    while i < aliases.len()
        invariant
            all == alias_views(aliases@),
            p == is_called(name@),
            has_alias_named(all, name@),
            i <= aliases@.len(),
            all.take(i as int).filter(p).len() == 0,
            forall|j: int| 0 <= j < i ==> aliases@[j].name@ != name@,
        decreases aliases@.len() - i,
    {
        proof {
            assert(all.take(i + 1 as int) =~= all.take(i as int).push(all[i as int]));
            all.take(i as int).lemma_filter_push(all[i as int], p);
            all.take(i + 1 as int).lemma_filter_len(p);
        }
        if str_equal(aliases[i].name.as_str(), name) {
            proof {
                let f = all.take(i + 1 as int).filter(p);
                assert(f =~= all.take(i as int).filter(p).push(all[i as int]));
                assert(f[0] == all[i as int]);
                assert(all =~= all.take(i + 1 as int) + all.skip(i + 1 as int));
                Seq::filter_distributes_over_add(all.take(i + 1 as int), all.skip(i + 1 as int), p);
                assert(all.filter(p)[0] == f[0]);
            }
            return aliases[i].dir_name.clone();
        }
        i = i + 1;
    }
    proof {
        let j = choose|j: int| 0 <= j < all.len() && (#[trigger] all[j]).1 == name@;
        assert(aliases@[j].name@ == name@);
    }
    String::new()
}

/// The names that hold `query`, in order.
pub fn names_containing(names: &Vec<String>, query: &str) -> (r: Vec<String>)
    ensures
        views(r@) == views(names@).filter(|n: Seq<char>| contains_seq(n, query@)),
{
    let ghost all = views(names@);
    let ghost p = |n: Seq<char>| contains_seq(n, query@);
    let mut r: Vec<String> = Vec::new();
    let mut i: usize = 0;
    while i < names.len()
        invariant
            all == views(names@),
            p == (|n: Seq<char>| contains_seq(n, query@)),
            i <= names@.len(),
            views(r@) == all.take(i as int).filter(p),
        decreases names@.len() - i,
    {
        proof {
            assert(all.take(i + 1 as int) =~= all.take(i as int).push(all[i as int]));
            all.take(i as int).lemma_filter_push(all[i as int], p);
        }
        if str_contains(names[i].as_str(), query) {
            let ghost prev = r@;
            r.push(names[i].clone());
            proof {
                assert(views(r@) =~= views(prev).push(all[i as int]));
            }
        }
        i = i + 1;
    }
    proof {
        assert(all.take(i as int) =~= all);
    }
    r
}

/// The names that hold `query` or are held by it, in order.
pub fn similar_names(names: &Vec<String>, query: &str) -> (r: Vec<String>)
    ensures
        views(r@) == views(names@).filter(|n: Seq<char>| is_similar(n, query@)),
{
    let ghost all = views(names@);
    let ghost p = |n: Seq<char>| is_similar(n, query@);
    let mut r: Vec<String> = Vec::new();
    let mut i: usize = 0;
    while i < names.len()
        invariant
            all == views(names@),
            p == (|n: Seq<char>| is_similar(n, query@)),
            i <= names@.len(),
            views(r@) == all.take(i as int).filter(p),
        decreases names@.len() - i,
    {
        proof {
            assert(all.take(i + 1 as int) =~= all.take(i as int).push(all[i as int]));
            all.take(i as int).lemma_filter_push(all[i as int], p);
        }
        if str_contains(names[i].as_str(), query) || str_contains(query, names[i].as_str()) {
            let ghost prev = r@;
            r.push(names[i].clone());
            proof {
                assert(views(r@) =~= views(prev).push(all[i as int]));
            }
        }
        i = i + 1;
    }
    proof {
        assert(all.take(i as int) =~= all);
    }
    r
}

/// The aliases whose name holds `query` or is held by it, in order.
pub fn similar_aliases(aliases: &Vec<Alias>, query: &str) -> (r: Vec<Alias>)
    ensures
        alias_views(r@) == alias_views(aliases@).filter(
            |a: (Seq<char>, Seq<char>)| is_similar(a.1, query@),
        ),
{
    let ghost all = alias_views(aliases@);
    let ghost p = |a: (Seq<char>, Seq<char>)| is_similar(a.1, query@);
    let mut r: Vec<Alias> = Vec::new();
    let mut i: usize = 0;
    while i < aliases.len()
        invariant
            all == alias_views(aliases@),
            p == (|a: (Seq<char>, Seq<char>)| is_similar(a.1, query@)),
            i <= aliases@.len(),
            alias_views(r@) == all.take(i as int).filter(p),
        decreases aliases@.len() - i,
    {
        proof {
            assert(all.take(i + 1 as int) =~= all.take(i as int).push(all[i as int]));
            all.take(i as int).lemma_filter_push(all[i as int], p);
        }
        let name = aliases[i].name.as_str();
        if str_contains(name, query) || str_contains(query, name) {
            let ghost prev = r@;
            let copy = Alias::new(aliases[i].dir_name.clone(), aliases[i].name.clone());
            r.push(copy);
            proof {
                assert(alias_views(r@) =~= alias_views(prev).push(all[i as int]));
            }
        }
        i = i + 1;
    }
    proof {
        assert(all.take(i as int) =~= all);
    }
    r
}

/// The installed versions and alias names that resemble `query`.
fn suggest(installed: &Vec<String>, aliases: &Vec<Alias>, query: &str) -> (r: Vec<String>)
    ensures
        views(r@) == suggestions(views(installed@), alias_views(aliases@), query@),
{
    let mut r = similar_names(installed, query);
    let found = similar_aliases(aliases, query);
    let ghost first = views(r@);
    let ghost names = alias_views(found@).map_values(|a: (Seq<char>, Seq<char>)| a.1);
    let mut i: usize = 0;
    while i < found.len()
        invariant
            names == alias_views(found@).map_values(|a: (Seq<char>, Seq<char>)| a.1),
            i <= found@.len(),
            views(r@) == first + names.take(i as int),
        decreases found@.len() - i,
    {
        let ghost prev = r@;
        r.push(found[i].name.clone());
        proof {
            assert(views(r@) =~= views(prev).push(names[i as int]));
            assert(names.take(i + 1 as int) =~= names.take(i as int).push(names[i as int]));
        }
        i = i + 1;
    }
    proof {
        assert(names.take(i as int) =~= names);
    }
    r
}

// ----- alias -----

/// The forms of `alias`.
#[derive(Clone, Copy, Debug, PartialEq, Eq, Structural)]
pub enum AliasSubcommand {
    Missing,
    Add,
    Remove,
    Show,
    Unknown,
}

/// Whether a word is one of the subcommand words `add`, `remove`, `show`.
pub open spec fn is_alias_keyword(word: Seq<char>) -> bool {
    word == "add"@ || word == "remove"@ || word == "show"@
}

/// The strings from position `from` on, copied.
fn tail_from(args: &Vec<String>, from: usize) -> (r: Vec<String>)
    requires
        from <= args@.len(),
    ensures
        views(r@) == views(args@).skip(from as int),
{
    let mut r: Vec<String> = Vec::new();
    let mut i: usize = from;
    while i < args.len()
        invariant
            from <= i <= args@.len(),
            views(r@) == views(args@).subrange(from as int, i as int),
        decreases args@.len() - i,
    {
        let ghost prev = r@;
        r.push(args[i].clone());
        proof {
            assert(views(r@) =~= views(prev).push(args@[i as int]@));
            assert(views(args@).subrange(from as int, i + 1 as int) =~= views(args@).subrange(
                from as int,
                i as int,
            ).push(args@[i as int]@));
        }
        i = i + 1;
    }
    assert(views(args@).subrange(from as int, i as int) =~= views(args@).skip(from as int));
    r
}

/// Reads the arguments of `alias`: the form and the arguments that go with it.
/// `alias VERSION NAME` adds an alias, as `alias add VERSION NAME` does;
/// `alias remove NAME` and `alias show` are the other forms.
pub fn alias_subcommand(args: &Vec<String>) -> (r: (AliasSubcommand, Vec<String>))
    ensures
        args@.len() == 0 ==> r.0 == AliasSubcommand::Missing && r.1@.len() == 0,
        args@.len() > 0 && args@[0]@ == "add"@ ==> r.0 == AliasSubcommand::Add && views(r.1@)
            == views(args@).skip(1),
        args@.len() > 0 && args@[0]@ == "remove"@ ==> r.0 == AliasSubcommand::Remove && views(r.1@)
            == views(args@).skip(1),
        args@.len() > 0 && args@[0]@ == "show"@ ==> r.0 == AliasSubcommand::Show && views(r.1@)
            == views(args@).skip(1),
        args@.len() == 2 && !is_alias_keyword(args@[0]@) ==> r.0 == AliasSubcommand::Add && views(
            r.1@,
        ) == views(args@),
        args@.len() > 0 && args@.len() != 2 && !is_alias_keyword(args@[0]@) ==> r.0
            == AliasSubcommand::Unknown && views(r.1@) == views(args@),
{
    if args.len() == 0 {
        return (AliasSubcommand::Missing, Vec::new());
    }
    let word = args[0].as_str();
    proof {
        reveal_strlit("add");
        reveal_strlit("remove");
        reveal_strlit("show");
        assert("add"@.len() != "remove"@.len() && "add"@.len() != "show"@.len()
            && "remove"@.len() != "show"@.len());
    }
    if str_equal(word, "add") {
        (AliasSubcommand::Add, tail_from(args, 1))
    } else if str_equal(word, "remove") {
        (AliasSubcommand::Remove, tail_from(args, 1))
    } else if str_equal(word, "show") {
        (AliasSubcommand::Show, tail_from(args, 1))
    } else if args.len() == 2 {
        let all = tail_from(args, 0);
        assert(views(args@).skip(0) =~= views(args@));
        (AliasSubcommand::Add, all)
    } else {
        let all = tail_from(args, 0);
        assert(views(args@).skip(0) =~= views(args@));
        (AliasSubcommand::Unknown, all)
    }
}

/// A command that takes no arguments got none.
pub fn no_arguments(args: &Vec<String>) -> (b: bool)
    ensures
        b == (args@.len() == 0),
{
    args.len() == 0
}

/// What `alias add VERSION NAME` does.
#[derive(Debug)]
pub enum AddAliasPlan {
    MissingArguments,
    TooManyArguments,
    /// The version is not installed; these installed versions hold the given text.
    NotInstalled(Vec<String>),
    /// The version has an alias already.
    AlreadyAliased,
    /// Add this alias.
    Add(Alias),
}

/// Decides `alias add VERSION NAME`: the version must be installed and have no alias yet.
pub fn plan_add_alias(args: &Vec<String>, installed: &Vec<String>, aliases: &Vec<Alias>) -> (r:
    AddAliasPlan)
    ensures
        args@.len() < 2 ==> r is MissingArguments,
        args@.len() > 2 ==> r is TooManyArguments,
        args@.len() == 2 ==> {
            let version = args@[0]@;
            let name = args@[1]@;
            if !views(installed@).contains(version) {
                r matches AddAliasPlan::NotInstalled(s) && views(s@) == views(installed@).filter(
                    |n: Seq<char>| contains_seq(n, version),
                )
            } else if has_alias_for(alias_views(aliases@), version) {
                r is AlreadyAliased
            } else {
                r matches AddAliasPlan::Add(a) && a@ == (version, name)
            }
        },
{
    if args.len() < 2 {
        return AddAliasPlan::MissingArguments;
    }
    if args.len() > 2 {
        return AddAliasPlan::TooManyArguments;
    }
    let version = args[0].as_str();
    if !has_name(installed, version) {
        return AddAliasPlan::NotInstalled(names_containing(installed, version));
    }
    if alias_exists_for(aliases, version) {
        return AddAliasPlan::AlreadyAliased;
    }
    AddAliasPlan::Add(Alias::new(args[0].clone(), args[1].clone()))
}

/// What `alias remove NAME` does.
#[derive(Debug)]
pub enum RemoveAliasPlan {
    MissingName,
    TooManyArguments,
    /// No alias has the name; these aliases have similar names.
    NotFound(Vec<Alias>),
    /// Remove the aliases with this name.
    Remove(String),
}

/// Decides `alias remove NAME`: the alias must exist.
pub fn plan_remove_alias(args: &Vec<String>, aliases: &Vec<Alias>) -> (r: RemoveAliasPlan)
    ensures
        args@.len() == 0 ==> r is MissingName,
        args@.len() > 1 ==> r is TooManyArguments,
        args@.len() == 1 ==> {
            let name = args@[0]@;
            if has_alias_named(alias_views(aliases@), name) {
                r matches RemoveAliasPlan::Remove(n) && n@ == name
            } else {
                r matches RemoveAliasPlan::NotFound(v) && alias_views(v@) == alias_views(
                    aliases@,
                ).filter(|a: (Seq<char>, Seq<char>)| is_similar(a.1, name))
            }
        },
{
    if args.len() == 0 {
        return RemoveAliasPlan::MissingName;
    }
    if args.len() != 1 {
        return RemoveAliasPlan::TooManyArguments;
    }
    let name = args[0].as_str();
    if !alias_exists(aliases, name) {
        return RemoveAliasPlan::NotFound(similar_aliases(aliases, name));
    }
    RemoveAliasPlan::Remove(args[0].clone())
}

// ----- select -----

/// What `select VERSION|ALIAS` does.
#[derive(Debug)]
pub enum SelectPlan {
    MissingTarget,
    TooManyArguments,
    /// Neither a version nor an alias has the name; these names are similar.
    NotFound(Vec<String>),
    /// Link the installed version with this name.
    Version(String),
    /// Link the version in this directory, which the alias names.
    Aliased(String),
}

/// Decides `select`: an installed version is linked as it is; an alias is
/// followed to its version.
pub fn plan_select(args: &Vec<String>, installed: &Vec<String>, aliases: &Vec<Alias>) -> (r:
    SelectPlan)
    ensures
        args@.len() == 0 ==> r is MissingTarget,
        args@.len() > 1 ==> r is TooManyArguments,
        args@.len() == 1 ==> {
            let q = args@[0]@;
            if views(installed@).contains(q) {
                r matches SelectPlan::Version(v) && v@ == q
            } else if has_alias_named(alias_views(aliases@), q) {
                r matches SelectPlan::Aliased(d) && d@ == alias_target(alias_views(aliases@), q)
            } else {
                r matches SelectPlan::NotFound(s) && views(s@) == suggestions(
                    views(installed@),
                    alias_views(aliases@),
                    q,
                )
            }
        },
{
    if args.len() == 0 {
        return SelectPlan::MissingTarget;
    }
    if args.len() > 1 {
        return SelectPlan::TooManyArguments;
    }
    let q = args[0].as_str();
    if has_name(installed, q) {
        SelectPlan::Version(args[0].clone())
    } else if alias_exists(aliases, q) {
        SelectPlan::Aliased(alias_dir(aliases, q))
    } else {
        SelectPlan::NotFound(suggest(installed, aliases, q))
    }
}

// ----- remove -----

/// What `remove VERSION|ALIAS` does.
#[derive(Debug)]
pub enum RemovePlan {
    MissingTarget,
    TooManyArguments,
    /// Nothing matches; these names are similar.
    NotFound(Vec<String>),
    /// Delete the version in this directory, the link, and the version's aliases.
    Delete(String),
    /// An installed version holds the name but is not called so, and no alias has the
    /// name: there is nothing to delete.
    Unresolved,
}

/// Some installed version holds `q`.
pub open spec fn installed_holding(installed: Seq<Seq<char>>, q: Seq<char>) -> bool {
    exists|i: int| 0 <= i < installed.len() && contains_seq(#[trigger] installed[i], q)
}

/// Decides `remove`: an installed version is deleted as it is; an alias is
/// followed to its version.
pub fn plan_remove(args: &Vec<String>, installed: &Vec<String>, aliases: &Vec<Alias>) -> (r:
    RemovePlan)
    ensures
        args@.len() == 0 ==> r is MissingTarget,
        args@.len() > 1 ==> r is TooManyArguments,
        args@.len() == 1 ==> {
            let q = args@[0]@;
            if !installed_holding(views(installed@), q) && !has_alias_named(
                alias_views(aliases@),
                q,
            ) {
                r matches RemovePlan::NotFound(s) && views(s@) == suggestions(
                    views(installed@),
                    alias_views(aliases@),
                    q,
                )
            } else if views(installed@).contains(q) {
                r matches RemovePlan::Delete(v) && v@ == q
            } else if has_alias_named(alias_views(aliases@), q) {
                r matches RemovePlan::Delete(d) && d@ == alias_target(alias_views(aliases@), q)
            } else {
                r is Unresolved
            }
        },
{
    if args.len() == 0 {
        return RemovePlan::MissingTarget;
    }
    if args.len() > 1 {
        return RemovePlan::TooManyArguments;
    }
    let q = args[0].as_str();
    let holding = names_containing(installed, q);
    proof {
        let p = |n: Seq<char>| contains_seq(n, q@);
        if installed_holding(views(installed@), q@) {
            let i = choose|i: int|
                0 <= i < views(installed@).len() && contains_seq(
                    #[trigger] views(installed@)[i],
                    q@,
                );
            views(installed@).lemma_filter_contains(p, i);
            assert(views(installed@).filter(p).contains(views(installed@)[i]));
        }
        if views(holding@).len() > 0 {
            let w = views(holding@)[0];
            views(installed@).lemma_filter_pred(p, 0);
            assert(p(w));
            assert(views(installed@).filter(p).contains(w));
            views(installed@).lemma_filter_contains_rev(p, w);
            assert(views(installed@).contains(w));
            let i = choose|i: int| 0 <= i < views(installed@).len() && views(installed@)[i] == w;
            assert(contains_seq(views(installed@)[i], q@));
        }
    }
    let named = alias_exists(aliases, q);
    if holding.len() == 0 && !named {
        return RemovePlan::NotFound(suggest(installed, aliases, q));
    }
    if has_name(installed, q) {
        RemovePlan::Delete(args[0].clone())
    } else if named {
        RemovePlan::Delete(alias_dir(aliases, q))
    } else {
        RemovePlan::Unresolved
    }
}

} // verus!
