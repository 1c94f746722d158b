//! The bits of `.git/config` worth having without paying for a `git config`
//! process.

use vstd::prelude::*;

use crate::text::{
    from_chars, has_prefix, has_suffix, same, same_ignoring_case, split_lines, split_once_at,
    to_chars, to_lowercase, trimmed, trimmed_char,
};
use vstd::slice::slice_subrange;

verus! {

/// What the file says of the repo.
#[derive(Debug)]
pub struct GitConfigScan {
    pub remote_url: Option<String>,
    pub bare: bool,
}

/// How far the file has been read: the section it is in, and what was found.
pub struct Reading {
    pub section: Seq<char>,
    pub subsection: Seq<char>,
    pub origin: Option<Seq<char>>,
    pub first_remote: Option<Seq<char>>,
    pub bare: bool,
}

pub open spec fn is_header(line: Seq<char>) -> bool {
    crate::text::starts_with(line, "["@) && crate::text::ends_with(line, "]"@)
}

/// The section and subsection a header names.
pub open spec fn header_names(line: Seq<char>) -> (Seq<char>, Seq<char>) {
    let inner = line.subrange(1, line.len() - 1);
    match crate::text::split_once(inner, ' ') {
        Some((s, sub)) => (
            crate::text::lowercase(crate::text::trim(s)),
            crate::text::trim_char(crate::text::trim(sub), '"'),
        ),
        None => (crate::text::lowercase(crate::text::trim(inner)), Seq::empty()),
    }
}

/// What a setting adds. Of the remotes, `origin`'s last URL is kept, and the first
/// URL of any other.
pub open spec fn take_setting(r: Reading, key: Seq<char>, value: Seq<char>) -> Reading {
    if r.section == "core"@ && key == "bare"@ {
        Reading { bare: crate::text::lowercase(value) == "true"@, ..r }
    } else if r.section == "remote"@ && key == "url"@ {
        if r.subsection == "origin"@ {
            Reading { origin: Some(value), ..r }
        } else if r.first_remote is None {
            Reading { first_remote: Some(value), ..r }
        } else {
            r
        }
    } else {
        r
    }
}

/// What one line adds.
pub open spec fn read_step(r: Reading, raw: Seq<char>) -> Reading {
    let line = crate::text::trim(raw);
    if is_header(line) {
        let (section, subsection) = header_names(line);
        Reading { section, subsection, ..r }
    } else {
        match crate::text::split_once(line, '=') {
            None => r,
            Some((key, value)) => take_setting(
                r,
                crate::text::lowercase(crate::text::trim(key)),
                crate::text::trim(value),
            ),
        }
    }
}

pub open spec fn read_upto(lines: Seq<Seq<char>>, n: int) -> Reading
    decreases n,
{
    if n <= 0 {
        Reading {
            section: Seq::empty(),
            subsection: Seq::empty(),
            origin: None,
            first_remote: None,
            bare: false,
        }
    } else {
        read_step(read_upto(lines, n - 1), lines[n - 1])
    }
}

pub open spec fn read_config(body: Seq<char>) -> Reading {
    read_upto(crate::text::lines(body), crate::text::lines(body).len() as int)
}

/// The remote to show: `origin` wins if present, otherwise the first found.
pub open spec fn remote_of(r: Reading) -> Option<Seq<char>> {
    if r.origin is Some {
        r.origin
    } else {
        r.first_remote
    }
}

struct Scanner {
    section: String,
    subsection: String,
    origin: Option<String>,
    first_remote: Option<String>,
    bare: bool,
}

impl View for Scanner {
    type V = Reading;

    closed spec fn view(&self) -> Reading {
        Reading {
            section: self.section@,
            subsection: self.subsection@,
            origin: crate::pathname::opt_text(self.origin),
            first_remote: crate::pathname::opt_text(self.first_remote),
            bare: self.bare,
        }
    }
}

fn read_header(line: &[char]) -> (r: (String, String))
    requires
        is_header(line@),
    ensures
        (r.0@, r.1@) == header_names(line@),
{
    proof {
        reveal_strlit("[");
        reveal_strlit("]");
        assert(line@.len() >= 2) by {
            assert(line@.take(1)[0] == '[');
            assert(line@.skip(line@.len() - 1)[0] == ']');
        }
    }
    let inner = slice_subrange(line, 1, line.len() - 1);
    match split_once_at(inner, ' ') {
        Some((s, sub)) => {
            let low = to_lowercase(trimmed(s));
            (from_chars(low.as_slice()), from_chars(trimmed_char(trimmed(sub), '"')))
        },
        None => {
            let low = to_lowercase(trimmed(inner));
            let none = String::new();
            assert(none@ =~= Seq::empty());
            (from_chars(low.as_slice()), none)
        },
    }
}

fn scan_line(s: Scanner, raw: &[char]) -> (r: Scanner)
    ensures
        r@ == read_step(s@, raw@),
{
    let mut s = s;
    let line = trimmed(raw);
    if has_prefix(line, "[") && has_suffix(line, "]") {
        let (section, subsection) = read_header(line);
        s.section = section;
        s.subsection = subsection;
        return s;
    }
    let (key, value) = match split_once_at(line, '=') {
        Some((key, value)) => (key, value),
        None => {
            return s;
        },
    };
    let low = to_lowercase(trimmed(key));
    let key = from_chars(low.as_slice());
    let value = from_chars(trimmed(value));
    if same(s.section.as_str(), "core") && same(key.as_str(), "bare") {
        let set = same_ignoring_case(value.as_str(), "true");
        proof {
            reveal_strlit("true");
            assert(crate::text::lowercase("true"@) =~= "true"@);
        }
        s.bare = set;
    } else if same(s.section.as_str(), "remote") && same(key.as_str(), "url") {
        if same(s.subsection.as_str(), "origin") {
            s.origin = Some(value);
        } else if s.first_remote.is_none() {
            s.first_remote = Some(value);
        }
    }
    s
}

/// Read `.git/config`; a repo whose file cannot be read has none of it. `origin`
/// wins if present, otherwise the first remote found.
pub fn scan_git_config(body: Option<&str>) -> (r: GitConfigScan)
    ensures
        (match body {
            Some(b) => crate::pathname::opt_text(r.remote_url) == remote_of(read_config(b@))
                && r.bare == read_config(b@).bare,
            None => r.remote_url is None && !r.bare,
        }),
{
    let body = match body {
        Some(b) => b,
        None => {
            return GitConfigScan { remote_url: None, bare: false };
        },
    };
    let v = to_chars(body);
    let ls = split_lines(v.as_slice());
    let ghost all = crate::text::lines(body@);
    assert(all.len() == ls@.len());
    let mut s = Scanner {
        section: String::new(),
        subsection: String::new(),
        origin: None,
        first_remote: None,
        bare: false,
    };
    assert(s.section@ =~= Seq::empty());
    assert(s.subsection@ =~= Seq::empty());
    let mut i: usize = 0;
    while i < ls.len()
        invariant
            i <= ls@.len(),
            all == crate::text::views(ls@),
            s@ == read_upto(all, i as int),
        decreases ls@.len() - i,
    {
        assert(all[i as int] == ls@[i as int]@);
        s = scan_line(s, ls[i].as_slice());
        i = i + 1;
    }
    let remote_url = if s.origin.is_some() {
        s.origin
    } else {
        s.first_remote
    };
    GitConfigScan { remote_url, bare: s.bare }
}

/// A repo with an `origin` shows its URL, whatever other remotes the file has and
/// in whatever order they come.
pub proof fn law_origin_wins(r: Reading)
    requires
        r.origin is Some,
    ensures
        remote_of(r) == r.origin,
        forall|raw: Seq<char>| #[trigger]
            read_step(r, raw).origin is Some && remote_of(read_step(r, raw)) == read_step(
                r,
                raw,
            ).origin,
{
}

/// A header in brackets opens its section, with the name in quotes where it has one.
pub proof fn law_a_header_opens_its_section(r: Reading, name: Seq<char>)
    requires
        name.len() > 0,
        name[0] != '"',
        name[name.len() - 1] != '"',
    ensures
        ({
            let next = read_step(r, "[remote \""@ + name + "\"]"@);
            &&& next.section == "remote"@
            &&& next.subsection == name
            &&& next.origin == r.origin
            &&& next.first_remote == r.first_remote
            &&& next.bare == r.bare
        }),
        read_step(r, "[core]"@).section == "core"@,
        read_step(r, "[core]"@).subsection.len() == 0,
{
    reveal_strlit("[remote \"");
    reveal_strlit("\"]");
    reveal_strlit("[core]");
    reveal_strlit("core");
    reveal_strlit("remote");
    reveal_strlit("[");
    reveal_strlit("]");
    let line = "[remote \""@ + name + "\"]"@;
    assert(line[0] == '[' && line[line.len() - 1] == ']');
    crate::text::lemma_trim_is(line);
    assert(line.take(1) =~= "["@);
    assert(line.skip(line.len() - 1) =~= "]"@);
    let quoted = seq!['"'] + name + seq!['"'];
    let inner = line.subrange(1, line.len() - 1);
    assert(inner =~= "remote"@ + seq![' '] + quoted);
    assert(!"remote"@.contains(' '));
    crate::text::law_split_once_goes_by_the_first("remote"@, quoted, ' ');
    crate::text::lemma_trim_is("remote"@);
    assert(quoted[0] == '"' && quoted[quoted.len() - 1] == '"');
    crate::text::lemma_trim_is(quoted);
    assert(quoted =~= seq!['"'] + name.push('"'));
    crate::text::law_a_character_is_trimmed(name.push('"'), '"');
    assert(name.push('"')[0] == name[0]);
    crate::text::law_a_character_is_trimmed(name, '"');
    assert(crate::text::lowercase("remote"@) =~= "remote"@);
    let core = "[core]"@;
    crate::text::lemma_trim_is(core);
    assert(core.take(1) =~= "["@);
    assert(core.skip(core.len() - 1) =~= "]"@);
    assert(core.subrange(1, core.len() - 1) =~= "core"@);
    assert(!"core"@.contains(' '));
    crate::text::law_split_once_goes_by_the_first("core"@, core, ' ');
    crate::text::lemma_trim_is("core"@);
    assert(crate::text::lowercase("core"@) =~= "core"@);
}

/// What an address under a remote does: `origin` has the last one it is given, and of the
/// others the first counts. Elsewhere an address is nothing.
pub proof fn law_an_address_belongs_to_its_remote(r: Reading, value: Seq<char>)
    requires
        value.len() > 0,
        !crate::text::is_whitespace(value[0]),
        !crate::text::is_whitespace(value[value.len() - 1]),
        value[value.len() - 1] != ']',
    ensures
        ({
            let next = read_step(r, "\turl = "@ + value);
            &&& next.section == r.section
            &&& next.subsection == r.subsection
            &&& next.bare == r.bare
            &&& r.section == "remote"@ && r.subsection == "origin"@ ==> next.origin == Some(value)
                && next.first_remote == r.first_remote
            &&& r.section == "remote"@ && r.subsection != "origin"@ ==> next.origin == r.origin
                && next.first_remote == (if r.first_remote is Some {
                r.first_remote
            } else {
                Some(value)
            })
            &&& r.section != "remote"@ ==> next.origin == r.origin && next.first_remote
                == r.first_remote
        }),
{
    reveal_strlit("\turl = ");
    reveal_strlit("url");
    reveal_strlit("bare");
    reveal_strlit("]");
    let line = "url = "@ + value;
    reveal_strlit("url = ");
    let raw = "\turl = "@ + value;
    assert(raw =~= seq!['\t'] + line + Seq::<char>::empty());
    assert(line[0] == 'u' && line[line.len() - 1] == value[value.len() - 1]);
    crate::text::lemma_trim_around(seq!['\t'], line, Seq::empty());
    assert(!crate::text::ends_with(line, "]"@)) by {
        assert(line.skip(line.len() - 1)[0] == line[line.len() - 1]);
    }
    assert(line =~= "url"@ + seq![' ', '=', ' '] + value);
    lemma_setting("url"@, value, line);
    assert("bare"@.len() == 4 && "url"@.len() == 3);
    assert(crate::text::lowercase("url"@) =~= "url"@);
}

proof fn lemma_setting(key: Seq<char>, value: Seq<char>, line: Seq<char>)
    requires
        key == "url"@ || key == "bare"@,
        value.len() > 0,
        !crate::text::is_whitespace(value[0]),
        !crate::text::is_whitespace(value[value.len() - 1]),
        line == key + seq![' ', '=', ' '] + value,
    ensures
        crate::text::split_once(line, '=') is Some,
        crate::text::split_once(line, '=') matches Some((k, v)) ==> crate::text::trim(k) == key
            && crate::text::trim(v) == value,
{
    reveal_strlit("url");
    reveal_strlit("bare");
    let (front, back) = (key + seq![' '], seq![' '] + value);
    assert(line =~= front + seq!['='] + back);
    assert(!front.contains('='));
    crate::text::law_split_once_goes_by_the_first(front, back, '=');
    crate::text::lemma_trim_around(Seq::empty(), key, seq![' ']);
    assert(Seq::<char>::empty() + key + seq![' '] =~= front);
    crate::text::lemma_trim_around(seq![' '], value, Seq::empty());
    assert(seq![' '] + value + Seq::<char>::empty() =~= back);
}

/// A repo is bare where its core section says true, in whatever case, and not where it
/// says anything else; other sections have no say.
pub proof fn law_bare_is_what_core_says(r: Reading, value: Seq<char>)
    requires
        value.len() > 0,
        !crate::text::is_whitespace(value[0]),
        !crate::text::is_whitespace(value[value.len() - 1]),
        value[value.len() - 1] != ']',
    ensures
        ({
            let next = read_step(r, "\tbare = "@ + value);
            &&& next.origin == r.origin
            &&& next.first_remote == r.first_remote
            &&& next.section == r.section
            &&& r.section == "core"@ ==> (next.bare <==> crate::text::lowercase(value) == "true"@)
            &&& r.section != "core"@ ==> next.bare == r.bare
        }),
{
    reveal_strlit("\tbare = ");
    reveal_strlit("bare = ");
    reveal_strlit("bare");
    reveal_strlit("url");
    reveal_strlit("]");
    let line = "bare = "@ + value;
    let raw = "\tbare = "@ + value;
    assert(raw =~= seq!['\t'] + line + Seq::<char>::empty());
    assert(line[0] == 'b' && line[line.len() - 1] == value[value.len() - 1]);
    crate::text::lemma_trim_around(seq!['\t'], line, Seq::empty());
    assert(!crate::text::ends_with(line, "]"@)) by {
        assert(line.skip(line.len() - 1)[0] == line[line.len() - 1]);
    }
    assert(line =~= "bare"@ + seq![' ', '=', ' '] + value);
    lemma_setting("bare"@, value, line);
    assert("bare"@.len() == 4 && "url"@.len() == 3);
    assert(crate::text::lowercase("bare"@) =~= "bare"@);
}

/// A config is read from the top, starting with nothing said; without `origin` the first
/// remote counts, and without any there is none.
pub proof fn law_a_config_is_read_from_the_top(lines: Seq<Seq<char>>, line: Seq<char>, r: Reading)
    ensures
        read_upto(lines.push(line), lines.len() as int + 1) == read_step(
            read_upto(lines, lines.len() as int),
            line,
        ),
        remote_of(read_upto(Seq::empty(), 0)) is None,
        !read_upto(Seq::empty(), 0).bare,
        r.origin is None ==> remote_of(r) == r.first_remote,
{
    lemma_read_front(lines, line, lines.len() as int);
}

proof fn lemma_read_front(lines: Seq<Seq<char>>, line: Seq<char>, n: int)
    requires
        0 <= n <= lines.len(),
    ensures
        read_upto(lines.push(line), n) == read_upto(lines, n),
    decreases n,
{
    if n > 0 {
        lemma_read_front(lines, line, n - 1);
        assert(lines.push(line)[n - 1] == lines[n - 1]);
    }
}

} // verus!
