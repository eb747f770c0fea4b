//! Reading and rewriting the `[package]` version of a provider's
//! `Cargo.toml`, and reading a list of changed paths, as text.
use vstd::prelude::*;

use crate::text::{chars_of, chars_start_with, is_white_space, push_char, push_str, split_on, split_text, starts_with, string_of_range};

verus! {

/// `s` without the characters satisfying `p` at its start.
pub open spec fn trim_start_by(s: Seq<char>, p: spec_fn(char) -> bool) -> Seq<char>
    decreases s.len(),
{
    if s.len() > 0 && p(s[0]) {
        trim_start_by(s.drop_first(), p)
    } else {
        s
    }
}

/// `s` without the characters satisfying `p` at its end.
pub open spec fn trim_end_by(s: Seq<char>, p: spec_fn(char) -> bool) -> Seq<char>
    decreases s.len(),
{
    if s.len() > 0 && p(s.last()) {
        trim_end_by(s.drop_last(), p)
    } else {
        s
    }
}

/// White space, as `char::is_whitespace` has it.
pub open spec fn white_space() -> spec_fn(char) -> bool {
    |c: char| is_white_space(c)
}

/// The character `q`.
pub open spec fn char_is(q: char) -> spec_fn(char) -> bool {
    |c: char| c == q
}

/// The double quote.
pub open spec fn double_quote() -> spec_fn(char) -> bool {
    char_is('"')
}

/// White space, or else the character `quote`.
pub open spec fn trim_pred(ws: bool, quote: char) -> spec_fn(char) -> bool {
    if ws {
        white_space()
    } else {
        char_is(quote)
    }
}

/// `s` without white space at either end (`str::trim`).
pub open spec fn trim_text(s: Seq<char>) -> Seq<char> {
    trim_end_by(trim_start_by(s, white_space()), white_space())
}

/// `s` without double quotes at either end (`str::trim_matches('"')`).
pub open spec fn trim_quotes(s: Seq<char>) -> Seq<char> {
    trim_end_by(trim_start_by(s, double_quote()), double_quote())
}

proof fn lemma_trim_start_skip(s: Seq<char>, p: spec_fn(char) -> bool, k: int)
    requires
        0 <= k <= s.len(),
        forall|j: int| 0 <= j < k ==> p(#[trigger] s[j]),
    ensures
        trim_start_by(s, p) == trim_start_by(s.skip(k), p),
    decreases k,
{
    if k == 0 {
        assert(s.skip(0) =~= s);
    } else {
        assert(p(s[0]));
        assert(s.drop_first().skip(k - 1) =~= s.skip(k));
        assert forall|j: int| 0 <= j < k - 1 implies p(#[trigger] s.drop_first()[j]) by {
            assert(s.drop_first()[j] == s[j + 1]);
        }
        lemma_trim_start_skip(s.drop_first(), p, k - 1);
    }
}

proof fn lemma_trim_end_take(s: Seq<char>, p: spec_fn(char) -> bool, k: int)
    requires
        0 <= k <= s.len(),
        forall|j: int| k <= j < s.len() ==> p(#[trigger] s[j]),
    ensures
        trim_end_by(s, p) == trim_end_by(s.take(k), p),
    decreases s.len() - k,
{
    if k == s.len() {
        assert(s.take(k) =~= s);
    } else {
        assert(p(s.last()));
        assert(s.drop_last().take(k) =~= s.take(k));
        assert forall|j: int| k <= j < s.len() - 1 implies p(#[trigger] s.drop_last()[j]) by {
            assert(s.drop_last()[j] == s[j]);
        }
        lemma_trim_end_take(s.drop_last(), p, k);
    }
}

fn trimmed_char(c: char, ws: bool, quote: char) -> (r: bool)
    ensures
        r == trim_pred(ws, quote)(c),
{
    if ws {
        crate::text::white_space_char(c)
    } else {
        c == quote
    }
}

/// The characters of `s[lo..hi]` once the characters satisfying `p` are
/// taken from both ends.
fn trim_bounds(s: &[char], ws: bool, quote: char) -> (r: (usize, usize))
    ensures
        r.0 <= r.1 <= s@.len(),
        s@.subrange(r.0 as int, r.1 as int) == trim_end_by(trim_start_by(s@, trim_pred(ws, quote)), trim_pred(ws, quote)),
{
    let ghost p: spec_fn(char) -> bool = trim_pred(ws, quote);
    let n = s.len();
    let mut lo: usize = 0;
    while lo < n && trimmed_char(s[lo], ws, quote)
        invariant
            n == s@.len(),
            lo <= n,
            p == trim_pred(ws, quote),
            forall|j: int| 0 <= j < lo ==> p(#[trigger] s@[j]),
        decreases n - lo,
    {
        lo = lo + 1;
    }
    proof {
        lemma_trim_start_skip(s@, p, lo as int);
        assert(trim_start_by(s@.skip(lo as int), p) == s@.skip(lo as int));
    }
    let ghost t = s@.skip(lo as int);
    let mut hi: usize = n;
    while hi > lo && trimmed_char(s[hi - 1], ws, quote)
        invariant
            n == s@.len(),
            lo <= hi <= n,
            t == s@.skip(lo as int),
            p == trim_pred(ws, quote),
            forall|j: int| hi - lo <= j < t.len() ==> p(#[trigger] t[j]),
        decreases hi - lo,
    {
        assert(t[hi - 1 - lo] == s@[hi - 1]);
        hi = hi - 1;
    }
    proof {
        lemma_trim_end_take(t, p, hi - lo);
        assert(t.take(hi - lo) =~= s@.subrange(lo as int, hi as int));
        assert(trim_end_by(t.take(hi - lo), p) == t.take(hi - lo));
    }
    (lo, hi)
}

/// `s` without white space at either end.
pub fn trim(s: &[char]) -> (out: Vec<char>)
    ensures
        out@ == trim_text(s@),
{
    let (lo, hi) = trim_bounds(s, true, ' ');
    let mut out: Vec<char> = Vec::new();
    for i in lo..hi
        invariant
            lo <= hi <= s@.len(),
            out@ == s@.subrange(lo as int, i as int),
    {
        out.push(s[i]);
        assert(s@.subrange(lo as int, i + 1) =~= s@.subrange(lo as int, i as int).push(s@[i as int]));
    }
    out
}

/// `s` without double quotes at either end.
pub fn trim_quote_chars(s: &[char]) -> (out: String)
    ensures
        out@ == trim_quotes(s@),
{
    let (lo, hi) = trim_bounds(s, false, '"');
    string_of_range(s, lo, hi)
}

/// `s` without a final carriage return.
pub open spec fn strip_cr(s: Seq<char>) -> Seq<char> {
    if s.len() > 0 && s.last() == '\r' {
        s.drop_last()
    } else {
        s
    }
}

/// The lines of `text` as `str::lines` gives them: split at `\n`, a
/// `\r` before the `\n` dropped, and no empty line after a final `\n`.
pub open spec fn text_lines(text: Seq<char>) -> Seq<Seq<char>> {
    let parts = split_text(text, '\n');
    let done = parts.drop_last().map_values(|l: Seq<char>| strip_cr(l));
    if parts.last().len() == 0 {
        done
    } else {
        done.push(parts.last())
    }
}

/// The lines of a text.
pub fn lines_of(text: &str) -> (out: Vec<Vec<char>>)
    ensures
        out@.map_values(|l: Vec<char>| l@) == text_lines(text@),
{
    let cs = chars_of(text);
    let parts = split_on(cs.as_slice(), '\n');
    proof {
        crate::text::lemma_split_text_nonempty(text@, '\n');
    }
    let ghost ps = split_text(text@, '\n');
    let n = parts.len();
    let mut out: Vec<Vec<char>> = Vec::new();
    for i in 0..n - 1
        invariant
            n == ps.len(),
            n >= 1,
            parts@.map_values(|p: String| p@) == ps,
            out@.map_values(|l: Vec<char>| l@) == ps.take(i as int).map_values(|l: Seq<char>| strip_cr(l)),
    {
        let mut line = chars_of(parts[i].as_str());
        assert(line@ == ps[i as int]);
        if line.len() > 0 && line[line.len() - 1] == '\r' {
            line.pop();
        }
        let ghost before = out@.map_values(|l: Vec<char>| l@);
        out.push(line);
        assert(out@.map_values(|l: Vec<char>| l@) =~= before.push(strip_cr(ps[i as int])));
        assert(ps.take(i + 1).map_values(|l: Seq<char>| strip_cr(l)) =~= ps.take(i as int).map_values(|l: Seq<char>| strip_cr(l)).push(strip_cr(ps[i as int])));
    }
    assert(ps.take(n - 1) =~= ps.drop_last());
    let last = chars_of(parts[n - 1].as_str());
    assert(last@ == ps.last());
    if last.len() > 0 {
        let ghost before = out@.map_values(|l: Vec<char>| l@);
        out.push(last);
        assert(out@.map_values(|l: Vec<char>| l@) =~= before.push(ps.last()));
    }
    out
}

/// The index of the first `c` in `s` at or after `i`.
pub open spec fn first_index_from(s: Seq<char>, c: char, i: int) -> Option<int>
    decreases s.len() - i,
{
    if i < 0 || i >= s.len() {
        None
    } else if s[i] == c {
        Some(i)
    } else {
        first_index_from(s, c, i + 1)
    }
}

fn first_index(s: &[char], c: char) -> (r: Option<usize>)
    ensures
        match r {
            Some(j) => j < s@.len() && first_index_from(s@, c, 0) == Some(j as int),
            None => first_index_from(s@, c, 0) is None,
        },
{
    let n = s.len();
    for i in 0..n
        invariant
            n == s@.len(),
            first_index_from(s@, c, 0) == first_index_from(s@, c, i as int),
    {
        if s[i] == c {
            return Some(i);
        }
    }
    None
}

/// The characters `s[from..to]`.
fn sub_chars(s: &[char], from: usize, to: usize) -> (out: Vec<char>)
    requires
        from <= to <= s@.len(),
    ensures
        out@ == s@.subrange(from as int, to as int),
{
    let mut out: Vec<char> = Vec::new();
    for i in from..to
        invariant
            from <= to <= s@.len(),
            out@ == s@.subrange(from as int, i as int),
    {
        out.push(s[i]);
        assert(s@.subrange(from as int, i + 1) =~= s@.subrange(from as int, i as int).push(s@[i as int]));
    }
    out
}

/// A trimmed line that opens a table (`[...]`).
pub open spec fn is_table_header(t: Seq<char>) -> bool {
    t.len() > 0 && t[0] == '['
}

/// A trimmed line that sets the key `version`: it starts with `version` and
/// the text before its first `=`, trimmed, is `version`.
pub open spec fn is_version_key(t: Seq<char>) -> bool {
    &&& starts_with(t, "version"@)
    &&& first_index_from(t, '=', 0) matches Some(j) && trim_text(t.take(j)) == "version"@
}

/// The value of a trimmed `version = ...` line: the text after the first `=`,
/// trimmed, without its quotes.
pub open spec fn version_value(t: Seq<char>) -> Seq<char> {
    match first_index_from(t, '=', 0) {
        Some(j) => trim_quotes(trim_text(t.skip(j + 1))),
        None => Seq::empty(),
    }
}

/// Whether line `i` is read inside the `[package]` table: the last table
/// header before it is `[package]`.
pub open spec fn in_package_before(lines: Seq<Seq<char>>, i: int) -> bool
    decreases i,
{
    if i <= 0 || i > lines.len() {
        false
    } else if is_table_header(trim_text(lines[i - 1])) {
        trim_text(lines[i - 1]) == "[package]"@
    } else {
        in_package_before(lines, i - 1)
    }
}

/// Line `i` sets the package version.
pub open spec fn is_package_version_line(lines: Seq<Seq<char>>, i: int) -> bool {
    &&& 0 <= i < lines.len()
    &&& !is_table_header(trim_text(lines[i]))
    &&& in_package_before(lines, i)
    &&& is_version_key(trim_text(lines[i]))
}

/// The first line at or after `i` that sets the package version.
pub open spec fn first_version_line(lines: Seq<Seq<char>>, i: int) -> Option<int>
    decreases lines.len() - i,
{
    if i < 0 || i >= lines.len() {
        None
    } else if is_package_version_line(lines, i) {
        Some(i)
    } else {
        first_version_line(lines, i + 1)
    }
}

/// The explicit `[package]` version of a manifest, if it has one.
pub open spec fn manifest_version(text: Seq<char>) -> Option<Seq<char>> {
    let lines = text_lines(text);
    match first_version_line(lines, 0) {
        Some(i) => Some(version_value(trim_text(lines[i]))),
        None => None,
    }
}

/// The error for a manifest without an explicit `[package]` version.
pub open spec fn missing_version_message() -> Seq<char> {
    "provider package version must be an explicit [package] version"@
}

/// Facts about one trimmed line: whether it opens a table, whether it is
/// `[package]`, and whether it sets the key `version`.
fn classify_line(t: &Vec<char>) -> (r: (bool, bool, bool))
    ensures
        r.0 == is_table_header(t@),
        r.1 == (t@ == "[package]"@),
        r.2 == is_version_key(t@),
{
    proof {
        reveal_strlit("[package]");
        reveal_strlit("version");
    }
    let header = t.len() > 0 && t[0] == '[';
    let is_package = crate::text::same_text(string_of_range(t.as_slice(), 0, t.len()).as_str(), "[package]");
    assert(t@.subrange(0, t@.len() as int) =~= t@);
    let key_text = chars_of("version");
    let mut version_key = false;
    if chars_start_with(t.as_slice(), key_text.as_slice()) {
        match first_index(t.as_slice(), '=') {
            Some(j) => {
                let key = trim(sub_chars(t.as_slice(), 0, j).as_slice());
                version_key = crate::text::same_text(string_of_range(key.as_slice(), 0, key.len()).as_str(), "version");
                assert(key@.subrange(0, key@.len() as int) =~= key@);
                assert(t@.subrange(0, j as int) =~= t@.take(j as int));
                assert(first_index_from(t@, '=', 0) == Some(j as int));
            },
            None => {
                assert(first_index_from(t@, '=', 0) is None);
            },
        }
    }
    (header, is_package, version_key)
}

/// The explicit `[package]` version of a manifest, or the error that it has
/// none.
pub fn parse_manifest_version(text: &str) -> (r: Result<String, String>)
    ensures
        match manifest_version(text@) {
            Some(v) => r matches Ok(s) && s@ == v,
            None => r matches Err(e) && e@ == missing_version_message(),
        },
{
    let lines = lines_of(text);
    let ghost ls = text_lines(text@);
    let n = lines.len();
    let mut in_package = false;
    for i in 0..n
        invariant
            n == ls.len(),
            lines@.map_values(|l: Vec<char>| l@) == ls,
            ls == text_lines(text@),
            in_package == in_package_before(ls, i as int),
            first_version_line(ls, 0) == first_version_line(ls, i as int),
    {
        let t = trim(lines[i].as_slice());
        assert(lines@[i as int]@ == ls[i as int]);
        let (header, is_package, version_key) = classify_line(&t);
        if header {
            in_package = is_package;
            assert(!is_package_version_line(ls, i as int));
        } else if in_package && version_key {
            if let Some(j) = first_index(t.as_slice(), '=') {
                let value = trim(sub_chars(t.as_slice(), j + 1, t.len()).as_slice());
                let out = trim_quote_chars(value.as_slice());
                proof {
                    assert(t@.subrange(j + 1, t@.len() as int) =~= t@.skip(j + 1));
                    assert(is_package_version_line(ls, i as int));
                    assert(first_version_line(ls, i as int) == Some(i as int));
                    assert(version_value(t@) == trim_quotes(trim_text(t@.skip(j + 1))));
                }
                return Ok(out);
            }
        } else {
            assert(!is_package_version_line(ls, i as int));
        }
    }
    proof {
        reveal_strlit("provider package version must be an explicit [package] version");
    }
    Err(crate::text::owned("provider package version must be an explicit [package] version"))
}

/// The line that sets the package version to `version`.
pub open spec fn version_line(version: Seq<char>) -> Seq<char> {
    "version = \""@ + version + "\""@
}

/// Line `i` of a manifest once its package version is set to `version`.
pub open spec fn rewritten_line(lines: Seq<Seq<char>>, i: int, version: Seq<char>) -> Seq<char> {
    if is_package_version_line(lines, i) {
        version_line(version)
    } else {
        lines[i]
    }
}

/// Lines joined by `\n`.
pub open spec fn join_lines(ls: Seq<Seq<char>>) -> Seq<char>
    decreases ls.len(),
{
    if ls.len() == 0 {
        Seq::empty()
    } else if ls.len() == 1 {
        ls[0]
    } else {
        join_lines(ls.drop_last()) + "\n"@ + ls.last()
    }
}

/// A manifest with every package version line set to `version`, each line
/// followed by `\n`; `None` when the manifest has no explicit `[package]`
/// version.
pub open spec fn rewritten_manifest(text: Seq<char>, version: Seq<char>) -> Option<Seq<char>> {
    let lines = text_lines(text);
    if first_version_line(lines, 0) is Some {
        Some(join_lines(Seq::new(lines.len(), |i: int| rewritten_line(lines, i, version))) + "\n"@)
    } else {
        None
    }
}

proof fn lemma_first_version_line_exists(lines: Seq<Seq<char>>, i: int)
    requires
        0 <= i <= lines.len(),
    ensures
        first_version_line(lines, i) is Some <==> exists|j: int| i <= j < lines.len() && is_package_version_line(lines, j),
    decreases lines.len() - i,
{
    if i < lines.len() {
        lemma_first_version_line_exists(lines, i + 1);
        if exists|j: int| i <= j < lines.len() && is_package_version_line(lines, j) {
            let j = choose|j: int| i <= j < lines.len() && is_package_version_line(lines, j);
            if j > i && !is_package_version_line(lines, i) {
                assert(exists|k: int| i + 1 <= k < lines.len() && is_package_version_line(lines, k));
            }
        }
    }
}

proof fn lemma_join_lines_step(ls: Seq<Seq<char>>, i: int)
    requires
        0 <= i < ls.len(),
    ensures
        join_lines(ls.take(i + 1)) == if i == 0 {
            ls[0]
        } else {
            join_lines(ls.take(i)) + "\n"@ + ls[i]
        },
{
    assert(ls.take(i + 1).drop_last() =~= ls.take(i));
    if i == 0 {
        assert(ls.take(1)[0] == ls[0]);
    }
}

/// The manifest with its package version set to `version`, or `None` when it
/// has no explicit `[package]` version.
pub fn rewrite_manifest_version(text: &str, version: &str) -> (r: Option<String>)
    ensures
        match rewritten_manifest(text@, version@) {
            Some(t) => r matches Some(s) && s@ == t,
            None => r is None,
        },
{
    let lines = lines_of(text);
    let ghost ls = text_lines(text@);
    let ghost mapped = Seq::new(ls.len(), |i: int| rewritten_line(ls, i, version@));
    let n = lines.len();
    let mut in_package = false;
    let mut replaced = false;
    let mut out = String::new();
    proof {
        reveal_strlit("version = \"");
        reveal_strlit("\"");
        reveal_strlit("\n");
        assert(mapped.take(0) =~= Seq::<Seq<char>>::empty());
    }
    for i in 0..n
        invariant
            n == ls.len(),
            lines@.map_values(|l: Vec<char>| l@) == ls,
            mapped == Seq::new(ls.len(), |i: int| rewritten_line(ls, i, version@)),
            in_package == in_package_before(ls, i as int),
            replaced == exists|j: int| 0 <= j < i && is_package_version_line(ls, j),
            out@ == join_lines(mapped.take(i as int)),
    {
        let t = trim(lines[i].as_slice());
        assert(lines@[i as int]@ == ls[i as int]);
        let (header, is_package, version_key) = classify_line(&t);
        if i > 0 {
            push_char(&mut out, '\n');
        }
        proof {
            reveal_strlit("\n");
            lemma_join_lines_step(mapped, i as int);
        }
        let ghost before = out@;
        assert(i > 0 ==> before == join_lines(mapped.take(i as int)) + "\n"@);
        assert(i == 0 ==> before.len() == 0);
        if header {
            in_package = is_package;
            push_str(&mut out, string_of_range(lines[i].as_slice(), 0, lines[i].len()).as_str());
            assert(lines@[i as int]@.subrange(0, ls[i as int].len() as int) =~= ls[i as int]);
            assert(!is_package_version_line(ls, i as int));
            assert(out@ =~= before + mapped[i as int]);
        } else if in_package && version_key {
            push_str(&mut out, "version = \"");
            push_str(&mut out, version);
            push_str(&mut out, "\"");
            replaced = true;
            assert(is_package_version_line(ls, i as int));
            assert(mapped[i as int] == version_line(version@));
            assert(out@ =~= before + mapped[i as int]);
        } else {
            push_str(&mut out, string_of_range(lines[i].as_slice(), 0, lines[i].len()).as_str());
            assert(lines@[i as int]@.subrange(0, ls[i as int].len() as int) =~= ls[i as int]);
            assert(!is_package_version_line(ls, i as int));
            assert(out@ =~= before + mapped[i as int]);
        }
        proof {
            if i > 0 {
                assert(out@ =~= join_lines(mapped.take(i as int)) + "\n"@ + mapped[i as int]);
            } else {
                assert(out@ =~= mapped[0]);
            }
        }
    }
    proof {
        lemma_first_version_line_exists(ls, 0);
        assert(mapped.take(n as int) =~= mapped);
    }
    if replaced {
        push_char(&mut out, '\n');
        Some(out)
    } else {
        None
    }
}

/// The trimmed lines of `lines` that are not empty, in order.
pub open spec fn nonblank_trimmed(lines: Seq<Seq<char>>) -> Seq<Seq<char>>
    decreases lines.len(),
{
    if lines.len() == 0 {
        Seq::empty()
    } else {
        let r = nonblank_trimmed(lines.drop_last());
        let t = trim_text(lines.last());
        if t.len() > 0 {
            r.push(t)
        } else {
            r
        }
    }
}

/// The changed paths listed in a text, one per line: each line trimmed, and
/// the empty ones left out.
pub fn changed_file_list(text: &str) -> (out: Vec<String>)
    ensures
        out@.map_values(|p: String| p@) == nonblank_trimmed(text_lines(text@)),
{
    let lines = lines_of(text);
    let ghost ls = text_lines(text@);
    let n = lines.len();
    let mut out: Vec<String> = Vec::new();
    assert(ls.take(0) =~= Seq::<Seq<char>>::empty());
    for i in 0..n
        invariant
            n == ls.len(),
            lines@.map_values(|l: Vec<char>| l@) == ls,
            out@.map_values(|p: String| p@) == nonblank_trimmed(ls.take(i as int)),
    {
        let t = trim(lines[i].as_slice());
        assert(lines@[i as int]@ == ls[i as int]);
        assert(ls.take(i + 1).drop_last() =~= ls.take(i as int));
        assert(ls.take(i + 1).last() == ls[i as int]);
        if t.len() > 0 {
            let ghost before = out@.map_values(|p: String| p@);
            out.push(string_of_range(t.as_slice(), 0, t.len()));
            assert(t@.subrange(0, t@.len() as int) =~= t@);
            assert(out@.map_values(|p: String| p@) =~= before.push(t@));
        }
    }
    assert(ls.take(n as int) =~= ls);
    out
}

proof fn lemma_split_concat(a: Seq<char>, b: Seq<char>)
    ensures
        split_text(a + seq!['\n'] + b, '\n') == split_text(a, '\n') + split_text(b, '\n'),
    decreases b.len(),
{
    let s = a + seq!['\n'] + b;
    if b.len() == 0 {
        assert(s.drop_last() =~= a);
        assert(split_text(b, '\n') =~= seq![Seq::<char>::empty()]);
        assert(split_text(s, '\n') =~= split_text(a, '\n') + split_text(b, '\n'));
    } else {
        let b0 = b.drop_last();
        lemma_split_concat(a, b0);
        assert(s.drop_last() =~= a + seq!['\n'] + b0);
        crate::text::lemma_split_text_nonempty(b0, '\n');
        crate::text::lemma_split_text_nonempty(a, '\n');
        let pa = split_text(a, '\n');
        let pb = split_text(b0, '\n');
        if b.last() == '\n' {
            assert(split_text(s, '\n') =~= (pa + pb).push(Seq::empty()));
            assert((pa + pb).push(Seq::empty()) =~= pa + pb.push(Seq::empty()));
        } else {
            let p = pa + pb;
            assert(p.last() == pb.last());
            assert(p.update(p.len() - 1, p.last().push(b.last())) =~= pa + pb.update(pb.len() - 1, pb.last().push(b.last())));
        }
    }
}

proof fn lemma_split_single(l: Seq<char>)
    requires
        !l.contains('\n'),
    ensures
        split_text(l, '\n') == seq![l],
    decreases l.len(),
{
    if l.len() > 0 {
        assert(!l.drop_last().contains('\n')) by {
            if l.drop_last().contains('\n') {
                let k = choose|k: int| 0 <= k < l.drop_last().len() && l.drop_last()[k] == '\n';
                assert(l[k] == '\n');
            }
        }
        lemma_split_single(l.drop_last());
        assert(l.drop_last().push(l.last()) =~= l);
        assert(seq![l.drop_last()].update(0, l.drop_last().push(l.last())) =~= seq![l]);
    } else {
        assert(l =~= Seq::<char>::empty());
    }
}

/// No line holds a `\n`.
pub open spec fn single_lines(ls: Seq<Seq<char>>) -> bool {
    forall|i: int| 0 <= i < ls.len() ==> !(#[trigger] ls[i]).contains('\n')
}

proof fn lemma_split_join(ls: Seq<Seq<char>>)
    requires
        ls.len() >= 1,
        single_lines(ls),
    ensures
        split_text(join_lines(ls), '\n') == ls,
    decreases ls.len(),
{
    if ls.len() == 1 {
        lemma_split_single(ls[0]);
        assert(seq![ls[0]] =~= ls);
    } else {
        let init = ls.drop_last();
        assert forall|i: int| 0 <= i < init.len() implies !(#[trigger] init[i]).contains('\n') by {
            assert(init[i] == ls[i]);
        }
        lemma_split_join(init);
        assert(!ls[ls.len() - 1].contains('\n'));
        lemma_split_single(ls.last());
        reveal_strlit("\n");
        assert(join_lines(ls) == join_lines(init) + "\n"@ + ls.last());
        assert(join_lines(init) + "\n"@ + ls.last() =~= join_lines(init) + seq!['\n'] + ls.last());
        lemma_split_concat(join_lines(init), ls.last());
        assert(init + seq![ls.last()] =~= ls);
    }
}

proof fn lemma_lines_of_joined(ls: Seq<Seq<char>>)
    requires
        ls.len() >= 1,
        single_lines(ls),
    ensures
        text_lines(join_lines(ls) + "\n"@) == ls.map_values(|l: Seq<char>| strip_cr(l)),
{
    lemma_split_join(ls);
    reveal_strlit("\n");
    assert(join_lines(ls) + "\n"@ =~= join_lines(ls) + seq!['\n'] + Seq::<char>::empty());
    lemma_split_concat(join_lines(ls), Seq::empty());
    assert(split_text(Seq::<char>::empty(), '\n') =~= seq![Seq::<char>::empty()]);
    let parts = split_text(join_lines(ls) + "\n"@, '\n');
    assert(parts =~= ls + seq![Seq::<char>::empty()]);
    assert(parts.drop_last() =~= ls);
}

proof fn lemma_split_pieces_single(s: Seq<char>)
    ensures
        single_lines(split_text(s, '\n')),
    decreases s.len(),
{
    if s.len() > 0 {
        lemma_split_pieces_single(s.drop_last());
        crate::text::lemma_split_text_nonempty(s.drop_last(), '\n');
        let p = split_text(s.drop_last(), '\n');
        if s.last() != '\n' {
            let q = p.update(p.len() - 1, p.last().push(s.last()));
            assert forall|i: int| 0 <= i < q.len() implies !(#[trigger] q[i]).contains('\n') by {
                if i == q.len() - 1 {
                    if q[i].contains('\n') {
                        let k = choose|k: int| 0 <= k < q[i].len() && q[i][k] == '\n';
                        if k < p.last().len() {
                            assert(p[p.len() - 1][k] == '\n');
                        }
                    }
                } else {
                    assert(q[i] == p[i]);
                }
            }
        } else {
            let q = p.push(Seq::<char>::empty());
            assert forall|i: int| 0 <= i < q.len() implies !(#[trigger] q[i]).contains('\n') by {
                if i < p.len() {
                    assert(q[i] == p[i]);
                }
            }
        }
    }
}

proof fn lemma_strip_cr_single(l: Seq<char>)
    requires
        !l.contains('\n'),
    ensures
        !strip_cr(l).contains('\n'),
{
    if strip_cr(l).contains('\n') {
        let k = choose|k: int| 0 <= k < strip_cr(l).len() && strip_cr(l)[k] == '\n';
        assert(l[k] == '\n');
    }
}

proof fn lemma_text_lines_single(text: Seq<char>)
    ensures
        single_lines(text_lines(text)),
{
    lemma_split_pieces_single(text);
    crate::text::lemma_split_text_nonempty(text, '\n');
    let parts = split_text(text, '\n');
    let done = parts.drop_last().map_values(|l: Seq<char>| strip_cr(l));
    assert forall|i: int| 0 <= i < done.len() implies !(#[trigger] done[i]).contains('\n') by {
        assert(parts.drop_last()[i] == parts[i]);
        lemma_strip_cr_single(parts[i]);
    }
    if parts.last().len() > 0 {
        let all = done.push(parts.last());
        assert forall|i: int| 0 <= i < all.len() implies !(#[trigger] all[i]).contains('\n') by {
            if i < done.len() {
                assert(all[i] == done[i]);
            } else {
                assert(all[i] == parts[parts.len() - 1]);
            }
        }
    }
}

proof fn lemma_trim_start_push(y: Seq<char>, c: char, p: spec_fn(char) -> bool)
    ensures
        trim_start_by(y.push(c), p) == (if trim_start_by(y, p).len() == 0 {
            trim_start_by(seq![c], p)
        } else {
            trim_start_by(y, p).push(c)
        }),
    decreases y.len(),
{
    if y.len() == 0 {
        assert(y.push(c) =~= seq![c]);
    } else if p(y[0]) {
        assert(y.push(c).drop_first() =~= y.drop_first().push(c));
        lemma_trim_start_push(y.drop_first(), c, p);
    } else {
        assert(y.push(c)[0] == y[0]);
    }
}

proof fn lemma_trim_cr(l: Seq<char>)
    ensures
        trim_text(strip_cr(l)) == trim_text(l),
{
    if l.len() > 0 && l.last() == '\r' {
        let y = l.drop_last();
        assert(l =~= y.push('\r'));
        let p = white_space();
        assert(p('\r'));
        lemma_trim_start_push(y, '\r', p);
        if trim_start_by(y, p).len() == 0 {
            let one = seq!['\r'];
            assert(one.drop_first() =~= Seq::<char>::empty());
            assert(trim_start_by(one, p) == trim_start_by(one.drop_first(), p));
            assert(trim_start_by(Seq::<char>::empty(), p) =~= Seq::<char>::empty());
        } else {
            let z = trim_start_by(y, p);
            assert(z.push('\r').drop_last() =~= z);
        }
    }
}

proof fn lemma_trim_fixed(t: Seq<char>)
    requires
        t.len() > 0,
        !is_white_space(t[0]),
        !is_white_space(t.last()),
    ensures
        trim_text(t) == t,
{
}

proof fn lemma_version_line_shape(v: Seq<char>)
    ensures
        version_line(v) == seq!['v', 'e', 'r', 's', 'i', 'o', 'n', ' ', '=', ' ', '"'] + v + seq!['"'],
{
    reveal_strlit("version = \"");
    reveal_strlit("\"");
    assert(version_line(v) =~= seq!['v', 'e', 'r', 's', 'i', 'o', 'n', ' ', '=', ' ', '"'] + v + seq!['"']);
}

proof fn lemma_version_line_equals(t: Seq<char>)
    requires
        t.len() > 9,
        t[0] != '=' && t[1] != '=' && t[2] != '=' && t[3] != '=' && t[4] != '=' && t[5] != '=' && t[6] != '=' && t[7] != '=',
        t[8] == '=',
    ensures
        first_index_from(t, '=', 0) == Some(8int),
{
    assert(first_index_from(t, '=', 8) == Some(8int));
    assert(first_index_from(t, '=', 7) == Some(8int));
    assert(first_index_from(t, '=', 6) == Some(8int));
    assert(first_index_from(t, '=', 5) == Some(8int));
    assert(first_index_from(t, '=', 4) == Some(8int));
    assert(first_index_from(t, '=', 3) == Some(8int));
    assert(first_index_from(t, '=', 2) == Some(8int));
    assert(first_index_from(t, '=', 1) == Some(8int));
}

proof fn lemma_version_key_trim()
    ensures
        trim_text(seq!['v', 'e', 'r', 's', 'i', 'o', 'n', ' ']) == "version"@,
{
    reveal_strlit("version");
    let key = seq!['v', 'e', 'r', 's', 'i', 'o', 'n', ' '];
    let ws = white_space();
    assert(trim_start_by(key, ws) == key);
    assert(key.drop_last() =~= "version"@);
    assert(trim_end_by(key.drop_last(), ws) == key.drop_last());
}

proof fn lemma_quoted_value(v: Seq<char>)
    requires
        v.len() > 0 ==> v[0] != '"' && v.last() != '"',
    ensures
        trim_text(seq![' ', '"'] + v + seq!['"']) == seq!['"'] + v + seq!['"'],
        trim_quotes(seq!['"'] + v + seq!['"']) == v,
{
    let ws = white_space();
    let quoted = seq!['"'] + v + seq!['"'];
    let rest = seq![' ', '"'] + v + seq!['"'];
    assert(rest.drop_first() =~= quoted);
    assert(trim_start_by(quoted, ws) == quoted);
    assert(trim_end_by(quoted, ws) == quoted);
    let q = double_quote();
    let tail = v + seq!['"'];
    assert(quoted.drop_first() =~= tail);
    assert(trim_start_by(quoted, q) == trim_start_by(tail, q));
    if v.len() == 0 {
        assert(tail =~= seq!['"']);
        assert(tail.drop_first() =~= Seq::<char>::empty());
        assert(trim_start_by(tail, q) == trim_start_by(Seq::<char>::empty(), q));
        assert(trim_end_by(Seq::<char>::empty(), q) =~= v);
    } else {
        assert(tail[0] == v[0]);
        assert(trim_start_by(tail, q) == tail);
        assert(tail.drop_last() =~= v);
        assert(trim_end_by(tail, q) == trim_end_by(v, q));
        assert(trim_end_by(v, q) == v);
    }
}

/// A version line reads as a line that sets the key `version`, and its value
/// is the version, when the version holds no `\n` and neither starts nor
/// ends with a double quote.
proof fn lemma_version_line_reads(v: Seq<char>)
    requires
        !v.contains('\n'),
        v.len() > 0 ==> v[0] != '"' && v.last() != '"',
    ensures
        trim_text(version_line(v)) == version_line(v),
        !is_table_header(version_line(v)),
        is_version_key(version_line(v)),
        version_value(version_line(v)) == v,
        !version_line(v).contains('\n'),
{
    reveal_strlit("version");
    lemma_version_line_shape(v);
    let t = version_line(v);
    assert(t[0] == 'v' && t[1] == 'e' && t[2] == 'r' && t[3] == 's' && t[4] == 'i' && t[5] == 'o' && t[6] == 'n');
    assert(t[7] == ' ' && t[8] == '=');
    assert(t.last() == '"');
    lemma_trim_fixed(t);
    assert(t.take(7) =~= "version"@);
    lemma_version_line_equals(t);
    assert(t.take(8) =~= seq!['v', 'e', 'r', 's', 'i', 'o', 'n', ' ']);
    lemma_version_key_trim();
    assert(t.skip(9) =~= seq![' ', '"'] + v + seq!['"']);
    lemma_quoted_value(v);
    if t.contains('\n') {
        let k = choose|k: int| 0 <= k < t.len() && t[k] == '\n';
        if 11 <= k < 11 + v.len() {
            assert(v[k - 11] == '\n');
        }
    }
}

proof fn lemma_same_reading(ls: Seq<Seq<char>>, out: Seq<Seq<char>>, v: Seq<char>)
    requires
        out.len() == ls.len(),
        forall|i: int| 0 <= i < ls.len() ==> trim_text(#[trigger] out[i]) == (if is_package_version_line(ls, i) {
            version_line(v)
        } else {
            trim_text(ls[i])
        }),
        !v.contains('\n'),
        v.len() > 0 ==> v[0] != '"' && v.last() != '"',
    ensures
        forall|i: int| 0 <= i <= ls.len() ==> #[trigger] in_package_before(out, i) == in_package_before(ls, i),
        forall|i: int| 0 <= i < ls.len() ==> #[trigger] is_package_version_line(out, i) == is_package_version_line(ls, i),
{
    lemma_version_line_reads(v);
    assert forall|i: int| 0 <= i <= ls.len() implies #[trigger] in_package_before(out, i) == in_package_before(ls, i) by {
        lemma_in_package_same(ls, out, v, i);
    }
    assert forall|i: int| 0 <= i < ls.len() implies #[trigger] is_package_version_line(out, i) == is_package_version_line(ls, i) by {
        lemma_in_package_same(ls, out, v, i);
        assert(trim_text(out[i]) == (if is_package_version_line(ls, i) { version_line(v) } else { trim_text(ls[i]) }));
    }
}

proof fn lemma_in_package_same(ls: Seq<Seq<char>>, out: Seq<Seq<char>>, v: Seq<char>, i: int)
    requires
        out.len() == ls.len(),
        0 <= i <= ls.len(),
        forall|j: int| 0 <= j < ls.len() ==> trim_text(#[trigger] out[j]) == (if is_package_version_line(ls, j) {
            version_line(v)
        } else {
            trim_text(ls[j])
        }),
        !is_table_header(version_line(v)),
    ensures
        in_package_before(out, i) == in_package_before(ls, i),
    decreases i,
{
    if i > 0 {
        lemma_in_package_same(ls, out, v, i - 1);
        assert(trim_text(out[i - 1]) == (if is_package_version_line(ls, i - 1) { version_line(v) } else { trim_text(ls[i - 1]) }));
    }
}

proof fn lemma_first_version_line_same(ls: Seq<Seq<char>>, out: Seq<Seq<char>>, i: int)
    requires
        out.len() == ls.len(),
        0 <= i <= ls.len(),
        forall|j: int| 0 <= j < ls.len() ==> #[trigger] is_package_version_line(out, j) == is_package_version_line(ls, j),
    ensures
        first_version_line(out, i) == first_version_line(ls, i),
    decreases ls.len() - i,
{
    if i < ls.len() {
        lemma_first_version_line_same(ls, out, i + 1);
        assert(is_package_version_line(out, i) == is_package_version_line(ls, i));
    }
}

proof fn lemma_first_version_line_is(ls: Seq<Seq<char>>, i: int)
    requires
        0 <= i <= ls.len(),
    ensures
        first_version_line(ls, i) matches Some(k) ==> i <= k < ls.len() && is_package_version_line(ls, k),
    decreases ls.len() - i,
{
    if i < ls.len() {
        lemma_first_version_line_is(ls, i + 1);
    }
}

/// Reading back a manifest whose package version was set to `version` gives
/// `version`, for any version that holds no line break and neither starts
/// nor ends with a double quote; the rewrite is refused exactly when the
/// manifest has no explicit `[package]` version.
pub proof fn law_rewritten_manifest_reads_back(text: Seq<char>, version: Seq<char>)
    requires
        !version.contains('\n'),
        version.len() > 0 ==> version[0] != '"' && version.last() != '"',
    ensures
        rewritten_manifest(text, version) is None <==> manifest_version(text) is None,
        rewritten_manifest(text, version) matches Some(out) ==> manifest_version(out) == Some(version),
{
    let ls = text_lines(text);
    if first_version_line(ls, 0) is Some {
        lemma_first_version_line_is(ls, 0);
        lemma_version_line_reads(version);
        lemma_text_lines_single(text);
        let mapped = Seq::new(ls.len(), |i: int| rewritten_line(ls, i, version));
        assert forall|i: int| 0 <= i < mapped.len() implies !(#[trigger] mapped[i]).contains('\n') by {
            if !is_package_version_line(ls, i) {
                assert(mapped[i] == ls[i]);
            }
        }
        lemma_lines_of_joined(mapped);
        let out_lines = mapped.map_values(|l: Seq<char>| strip_cr(l));
        assert forall|i: int| 0 <= i < ls.len() implies trim_text(#[trigger] out_lines[i]) == (if is_package_version_line(ls, i) {
            version_line(version)
        } else {
            trim_text(ls[i])
        }) by {
            lemma_trim_cr(mapped[i]);
        }
        lemma_same_reading(ls, out_lines, version);
        lemma_first_version_line_same(ls, out_lines, 0);
        let k = first_version_line(ls, 0).unwrap();
        lemma_trim_cr(mapped[k]);
    }
}

} // verus!
