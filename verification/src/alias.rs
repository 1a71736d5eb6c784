//! Aliases: short names for installed Flutter versions, kept one per line
//! as `directory,alias` in the file `aliases` of the installation directory.

use vstd::prelude::*;
use crate::installation_path::{child_path, components_view};
use crate::text::{
    chars_of, find_from, first_index_of, free_of, join_with, lemma_first_index_of, lemma_split_cons,
    lemma_split_free, lemma_split_join, split_on, split_ranges, substring,
};

verus! {

/// An alias: the directory of an installed version and the name that stands for it.
#[derive(Clone, Debug)]
pub struct Alias {
    pub dir_name: String,
    pub name: String,
}

impl View for Alias {
    type V = (Seq<char>, Seq<char>);

    open spec fn view(&self) -> (Seq<char>, Seq<char>) {
        (self.dir_name@, self.name@)
    }
}

/// The line that stands for an alias: `directory,alias`.
pub open spec fn alias_line(a: (Seq<char>, Seq<char>)) -> Seq<char> {
    a.0.push(',') + a.1
}

/// A line can be read as an alias when it holds a comma.
pub open spec fn is_alias_line(line: Seq<char>) -> bool {
    !free_of(line, ',')
}

/// The alias a line stands for: the first two comma-separated fields.
pub open spec fn parse_alias_line(line: Seq<char>) -> (Seq<char>, Seq<char>) {
    (split_on(line, ',')[0], split_on(line, ',')[1])
}

/// The non-empty lines of an alias file.
pub open spec fn alias_records(contents: Seq<char>) -> Seq<Seq<char>> {
    split_on(contents, '\n').filter(|l: Seq<char>| l.len() > 0)
}

/// Every non-empty line of the file can be read as an alias.
pub open spec fn alias_contents_well_formed(contents: Seq<char>) -> bool {
    forall|k: int|
        0 <= k < alias_records(contents).len() ==> is_alias_line(
            #[trigger] alias_records(contents)[k],
        )
}

/// The aliases that an alias file holds, line by line.
pub open spec fn aliases_of_contents(contents: Seq<char>) -> Seq<(Seq<char>, Seq<char>)> {
    alias_records(contents).map_values(|l: Seq<char>| parse_alias_line(l))
}

/// The text of an alias file: the alias lines joined by newlines.
pub open spec fn alias_file_contents(aliases: Seq<(Seq<char>, Seq<char>)>) -> Seq<char> {
    join_with(aliases.map_values(|a: (Seq<char>, Seq<char>)| alias_line(a)), '\n')
}

/// Neither field holds a comma or a newline, so the alias survives a write and a read.
pub open spec fn alias_is_storable(a: (Seq<char>, Seq<char>)) -> bool {
    free_of(a.0, ',') && free_of(a.0, '\n') && free_of(a.1, ',') && free_of(a.1, '\n')
}

/// Splitting never gives an empty list of pieces.
pub proof fn lemma_split_nonempty(s: Seq<char>, c: char)
    ensures
        split_on(s, c).len() >= 1,
        free_of(s, c) ==> split_on(s, c).len() == 1,
        !free_of(s, c) ==> split_on(s, c).len() >= 2,
    decreases s.len(),
{
    lemma_first_index_of(s, c);
    let i = first_index_of(s, c);
    if i < s.len() {
        lemma_split_nonempty(s.skip(i + 1 as int), c);
    } else {
        assert(free_of(s, c));
    }
    if free_of(s, c) {
        lemma_split_free(s, c);
    }
}

/// Reading the line of an alias whose fields hold no comma gives the alias back.
pub proof fn lemma_alias_line_roundtrip(a: (Seq<char>, Seq<char>))
    requires
        free_of(a.0, ','),
        free_of(a.1, ','),
    ensures
        is_alias_line(alias_line(a)),
        parse_alias_line(alias_line(a)) == a,
{
    let line = alias_line(a);
    assert(line[a.0.len() as int] == ',');
    lemma_split_cons(a.0, ',', a.1);
    lemma_split_free(a.1, ',');
    assert(split_on(line, ',') =~= seq![a.0, a.1]);
}

/// Filtering keeps everything when everything passes.
proof fn lemma_filter_all(s: Seq<Seq<char>>)
    requires
        forall|k: int| 0 <= k < s.len() ==> (#[trigger] s[k]).len() > 0,
    ensures
        s.filter(|l: Seq<char>| l.len() > 0) == s,
    decreases s.len(),
{
    reveal(Seq::filter);
    if s.len() > 0 {
        lemma_filter_all(s.drop_last());
        assert(s.drop_last().push(s.last()) =~= s);
    }
}

/// What is written to the alias file reads back as the same aliases,
/// when no field holds a comma or a newline.
pub proof fn lemma_alias_file_roundtrip(aliases: Seq<(Seq<char>, Seq<char>)>)
    requires
        forall|k: int| 0 <= k < aliases.len() ==> alias_is_storable(#[trigger] aliases[k]),
    ensures
        alias_contents_well_formed(alias_file_contents(aliases)),
        aliases_of_contents(alias_file_contents(aliases)) == aliases,
{
    let lines = aliases.map_values(|a: (Seq<char>, Seq<char>)| alias_line(a));
    let contents = alias_file_contents(aliases);
    if aliases.len() == 0 {
        assert(contents =~= Seq::<char>::empty());
        assert(split_on(contents, '\n') == seq![contents]);
        let none = Seq::<Seq<char>>::empty();
        assert(seq![contents] =~= none.push(contents));
        none.lemma_filter_push(contents, |l: Seq<char>| l.len() > 0);
        assert(none.filter(|l: Seq<char>| l.len() > 0) =~= none) by {
            reveal(Seq::filter);
        }
        assert(alias_records(contents) =~= none);
        assert(aliases_of_contents(contents) =~= aliases);
    } else {
        assert forall|k: int| 0 <= k < lines.len() implies free_of(#[trigger] lines[k], '\n') by {
            let a = aliases[k];
            assert(alias_is_storable(a));
            assert(lines[k] == alias_line(a));
            assert forall|j: int| 0 <= j < lines[k].len() implies lines[k][j] != '\n' by {
                if j < a.0.len() {
                    assert(lines[k][j] == a.0[j]);
                } else if j > a.0.len() {
                    assert(lines[k][j] == a.1[j - a.0.len() - 1]);
                }
            }
        }
        lemma_split_join(lines, '\n');
        assert forall|k: int| 0 <= k < lines.len() implies (#[trigger] lines[k]).len() > 0 by {
            assert(lines[k] == alias_line(aliases[k]));
        }
        lemma_filter_all(lines);
        assert(alias_records(contents) == lines);
        assert forall|k: int|
            0 <= k < alias_records(contents).len() implies is_alias_line(
                #[trigger] alias_records(contents)[k],
            ) by {
            assert(alias_is_storable(aliases[k]));
            lemma_alias_line_roundtrip(aliases[k]);
        }
        assert forall|k: int| 0 <= k < aliases.len() implies #[trigger] aliases_of_contents(
            contents,
        )[k] == aliases[k] by {
            assert(alias_is_storable(aliases[k]));
            lemma_alias_line_roundtrip(aliases[k]);
        }
        assert(aliases_of_contents(contents) =~= aliases);
    }
}

/// The path of the alias file: `aliases` in the installation directory.
pub fn get_aliases_path(root: &Vec<String>) -> (r: Vec<String>)
    ensures
        components_view(r@) == components_view(root@).push(seq!['a', 'l', 'i', 'a', 's', 'e', 's']),
{
    let name = "aliases";
    proof {
        reveal_strlit("aliases");
        assert(name@ =~= seq!['a', 'l', 'i', 'a', 's', 'e', 's']);
    }
    child_path(root, name)
}

impl Alias {
    /// An alias that names the version in `dir_name` with `name`.
    pub fn new(dir_name: String, name: String) -> (a: Alias)
        ensures
            a.dir_name == dir_name,
            a.name == name,
    {
        Alias { dir_name: dir_name, name }
    }

    /// Reads a line `directory,alias[,...]`; fields after the second are ignored.
    pub fn parse(s: String) -> (a: Alias)
        requires
            is_alias_line(s@),
        ensures
            a@ == parse_alias_line(s@),
    {
        let v = chars_of(s.as_str());
        let n = v.len();
        let i = find_from(&v, 0, ',');
        proof {
            assert(v@.skip(0) =~= s@);
            lemma_first_index_of(s@, ',');
            if first_index_of(s@, ',') == s@.len() {
                assert(free_of(s@, ','));
            }
            assert(i < v@.len());
        }
        let j = find_from(&v, i + 1, ',');
        let dir_name = substring(s.as_str(), 0, i);
        let name = substring(s.as_str(), i + 1, j);
        proof {
            let fi = first_index_of(s@, ',');
            assert(fi == i);
            assert(split_on(s@, ',') == seq![s@.take(fi as int)] + split_on(
                s@.skip(fi + 1 as int),
                ',',
            ));
            let rest = s@.skip(i + 1 as int);
            assert(v@.skip(i + 1 as int) == rest);
            lemma_first_index_of(rest, ',');
            lemma_split_nonempty(rest, ',');
            let fj = first_index_of(rest, ',');
            if fj < rest.len() {
                assert(split_on(rest, ',')[0] == rest.take(fj as int));
            } else {
                assert(split_on(rest, ',')[0] == rest);
                assert(rest.take(fj as int) =~= rest);
            }
            assert(dir_name@ =~= s@.take(i as int));
            assert(name@ =~= rest.take(fj as int));
        }
        Alias { dir_name, name }
    }

    /// The line that stands for the alias in the alias file: `directory,alias`.
    pub fn to_line(&self) -> (r: String)
        ensures
            r@ == alias_line(self@),
    {
        let mut r = self.dir_name.clone();
        let comma = ",";
        proof {
            reveal_strlit(",");
        }
        r.append(comma);
        r.append(self.name.as_str());
        proof {
            assert(r@ =~= alias_line(self@));
        }
        r
    }

    /// A copy with the same directory and name.
    fn duplicate(&self) -> (r: Alias)
        ensures
            r@ == self@,
    {
        Alias { dir_name: self.dir_name.clone(), name: self.name.clone() }
    }
}

/// The aliases of the installation, in the order of the alias file.
pub struct AliasFile {
    aliases: Vec<Alias>,
}

impl View for AliasFile {
    type V = Seq<(Seq<char>, Seq<char>)>;

    closed spec fn view(&self) -> Seq<(Seq<char>, Seq<char>)> {
        self.aliases@.map_values(|a: Alias| a@)
    }
}

impl AliasFile {
    /// Reads the text of an alias file: each non-empty line is one alias.
    /// Gives `None` when a non-empty line holds no comma.
    pub fn parse_contents(contents: &str) -> (r: Option<AliasFile>)
        ensures
            r is Some <==> alias_contents_well_formed(contents@),
            r matches Some(f) ==> f@ == aliases_of_contents(contents@),
    {
        let ranges = split_ranges(contents, '\n');
        let ghost pieces = split_on(contents@, '\n');
        let ghost nonempty = |l: Seq<char>| l.len() > 0;
        let mut out: Vec<Alias> = Vec::new();
        let mut k: usize = 0;
        while k < ranges.len()
            invariant
                ranges@.len() == pieces.len(),
                pieces == split_on(contents@, '\n'),
                nonempty == (|l: Seq<char>| l.len() > 0),
                forall|q: int| 0 <= q < ranges@.len() ==> #[trigger] ranges@[q].0 <= ranges@[q].1
                    <= contents@.len(),
                forall|q: int|
                    0 <= q < ranges@.len() ==> contents@.subrange(
                        ranges@[q].0 as int,
                        ranges@[q].1 as int,
                    ) == #[trigger] pieces[q],
                k <= ranges@.len(),
                out@.map_values(|a: Alias| a@) == pieces.take(k as int).filter(nonempty).map_values(
                    |l: Seq<char>| parse_alias_line(l),
                ),
                forall|q: int|
                    0 <= q < pieces.take(k as int).filter(nonempty).len() ==> is_alias_line(
                        #[trigger] pieces.take(k as int).filter(nonempty)[q],
                    ),
            decreases ranges@.len() - k,
        {
            let (a, b) = ranges[k];
            let line = substring(contents, a, b);
            assert(line@ == pieces[k as int]);
            let ghost before = pieces.take(k as int);
            proof {
                assert(pieces.take(k + 1 as int) =~= before.push(pieces[k as int]));
                before.lemma_filter_push(pieces[k as int], nonempty);
            }
            if a < b {
                let lv = chars_of(line.as_str());
                let c = find_from(&lv, 0, ',');
                proof {
                    assert(lv@.skip(0) =~= line@);
                    lemma_first_index_of(line@, ',');
                }
                if c == lv.len() {
                    proof {
                        assert(free_of(line@, ','));
                        let recs = alias_records(contents@);
                        pieces.lemma_filter_contains(nonempty, k as int);
                        assert(recs.contains(pieces[k as int]));
                        let q = choose|q: int| 0 <= q < recs.len() && recs[q] == pieces[k as int];
                        assert(!is_alias_line(recs[q]));
                    }
                    return None;
                }
                let ghost old_out = out@;
                let alias = Alias::parse(line);
                out.push(alias);
                proof {
                    assert(out@ =~= old_out.push(alias));
                    assert(out@.map_values(|a: Alias| a@) =~= old_out.map_values(|a: Alias| a@).push(
                        alias@,
                    ));
                    assert(pieces.take(k + 1 as int).filter(nonempty) == before.filter(nonempty).push(
                        pieces[k as int],
                    ));
                    assert(pieces.take(k + 1 as int).filter(nonempty).map_values(
                        |l: Seq<char>| parse_alias_line(l),
                    ) =~= before.filter(nonempty).map_values(|l: Seq<char>| parse_alias_line(l)).push(
                        parse_alias_line(pieces[k as int]),
                    ));
                }
            } else {
                proof {
                    assert(pieces[k as int].len() == 0);
                    assert(pieces.take(k + 1 as int).filter(nonempty) == before.filter(nonempty));
                }
            }
            k = k + 1;
        }
        proof {
            assert(pieces.take(k as int) =~= pieces);
        }
        Some(AliasFile { aliases: out })
    }

    /// The text written to the alias file: one `directory,alias` line per alias.
    pub fn to_contents(&self) -> (r: String)
        ensures
            r@ == alias_file_contents(self@),
    {
        let ghost lines = self@.map_values(|a: (Seq<char>, Seq<char>)| alias_line(a));
        let mut r = String::new();
        let newline = "\n";
        proof {
            reveal_strlit("\n");
        }
        let mut i: usize = 0;
        while i < self.aliases.len()
            invariant
                lines == self@.map_values(|a: (Seq<char>, Seq<char>)| alias_line(a)),
                self@ == self.aliases@.map_values(|a: Alias| a@),
                newline@ == seq!['\n'],
                i <= self.aliases@.len(),
                r@ == join_with(lines.take(i as int), '\n'),
            decreases self.aliases@.len() - i,
        {
            let line = self.aliases[i].to_line();
            let ghost prev = r@;
            if i > 0 {
                r.append(newline);
            }
            r.append(line.as_str());
            proof {
                let t = lines.take(i + 1 as int);
                assert(line@ == lines[i as int]);
                assert(t.drop_last() =~= lines.take(i as int));
                assert(t.last() == lines[i as int]);
                if i == 0 {
                    assert(t =~= seq![lines[0]]);
                    assert(r@ =~= join_with(t, '\n'));
                } else {
                    assert(r@ =~= join_with(t, '\n'));
                }
            }
            i = i + 1;
        }
        proof {
            assert(lines.take(i as int) =~= lines);
        }
        r
    }

    /// Adds an alias at the end.
    pub fn push(&mut self, a: Alias)
        ensures
            final(self)@ == old(self)@.push(a@),
    {
        let ghost before = self.aliases@;
        self.aliases.push(a);
        proof {
            assert(self.aliases@.map_values(|x: Alias| x@) =~= before.map_values(|x: Alias| x@).push(
                a@,
            ));
        }
    }

    /// A copy of all aliases, in order.
    pub fn get(&self) -> (r: Vec<Alias>)
        ensures
            r@.map_values(|a: Alias| a@) == self@,
    {
        let mut r: Vec<Alias> = Vec::new();
        let mut i: usize = 0;
        while i < self.aliases.len()
            invariant
                self@ == self.aliases@.map_values(|a: Alias| a@),
                i <= self.aliases@.len(),
                r@.map_values(|a: Alias| a@) == self@.take(i as int),
            decreases self.aliases@.len() - i,
        {
            let ghost prev = r@;
            let a = self.aliases[i].duplicate();
            r.push(a);
            proof {
                assert(r@ =~= prev.push(a));
                assert(a@ == self@[i as int]);
                assert(self@.take(i + 1 as int) =~= self@.take(i as int).push(self@[i as int]));
                assert(r@.map_values(|a: Alias| a@) =~= prev.map_values(|a: Alias| a@).push(a@));
                assert(r@.map_values(|a: Alias| a@) =~= self@.take(i + 1 as int));
            }
            i = i + 1;
        }
        proof {
            assert(self@.take(i as int) =~= self@);
        }
        r
    }

    /// Drops every alias called `name`; the others keep their order.
    pub fn remove_by_alias(&mut self, name: String)
        ensures
            final(self)@ == old(self)@.filter(|a: (Seq<char>, Seq<char>)| a.1 != name@),
    {
        let ghost keep = |a: (Seq<char>, Seq<char>)| a.1 != name@;
        let ghost all = self@;
        let mut kept: Vec<Alias> = Vec::new();
        let mut i: usize = 0;
        while i < self.aliases.len()
            invariant
                all == self.aliases@.map_values(|a: Alias| a@),
                keep == (|a: (Seq<char>, Seq<char>)| a.1 != name@),
                i <= self.aliases@.len(),
                kept@.map_values(|a: Alias| a@) == all.take(i as int).filter(keep),
            decreases self.aliases@.len() - i,
        {
            proof {
                assert(all.take(i + 1 as int) =~= all.take(i as int).push(all[i as int]));
                all.take(i as int).lemma_filter_push(all[i as int], keep);
            }
            if !(self.aliases[i].name == name) {
                let ghost prev = kept@;
                let a = self.aliases[i].duplicate();
                kept.push(a);
                proof {
                    assert(kept@.map_values(|a: Alias| a@) =~= prev.map_values(|a: Alias| a@).push(
                        a@,
                    ));
                }
            }
            i = i + 1;
        }
        proof {
            assert(all.take(i as int) =~= all);
        }
        self.aliases = kept;
    }

    /// Drops every alias of the version in `version`; the others keep their order.
    pub fn remove_by_version(&mut self, version: &String)
        ensures
            final(self)@ == old(self)@.filter(|a: (Seq<char>, Seq<char>)| a.0 != version@),
    {
        let ghost keep = |a: (Seq<char>, Seq<char>)| a.0 != version@;
        let ghost all = self@;
        let mut kept: Vec<Alias> = Vec::new();
        let mut i: usize = 0;
        while i < self.aliases.len()
            invariant
                all == self.aliases@.map_values(|a: Alias| a@),
                keep == (|a: (Seq<char>, Seq<char>)| a.0 != version@),
                i <= self.aliases@.len(),
                kept@.map_values(|a: Alias| a@) == all.take(i as int).filter(keep),
            decreases self.aliases@.len() - i,
        {
            proof {
                assert(all.take(i + 1 as int) =~= all.take(i as int).push(all[i as int]));
                all.take(i as int).lemma_filter_push(all[i as int], keep);
            }
            if !(self.aliases[i].dir_name == *version) {
                let ghost prev = kept@;
                let a = self.aliases[i].duplicate();
                kept.push(a);
                proof {
                    assert(kept@.map_values(|a: Alias| a@) =~= prev.map_values(|a: Alias| a@).push(
                        a@,
                    ));
                }
            }
            i = i + 1;
        }
        proof {
            assert(all.take(i as int) =~= all);
        }
        self.aliases = kept;
    }
}

} // verus!
