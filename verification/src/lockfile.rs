//! Reading the version of `wasm-bindgen` that a `Cargo.lock` pins.
use crate::text::{chars_of, push_char, starts_with_spec};
use vstd::prelude::*;

verus! {

/// The Unicode `White_Space` property, which `str::trim` strips.
pub open spec fn is_white_space(c: char) -> bool {
    let u = c as u32;
    ||| 0x9 <= u <= 0xd
    ||| u == 0x20
    ||| u == 0x85
    ||| u == 0xa0
    ||| u == 0x1680
    ||| 0x2000 <= u <= 0x200a
    ||| u == 0x2028
    ||| u == 0x2029
    ||| u == 0x202f
    ||| u == 0x205f
    ||| u == 0x3000
}

/// Leading white space removed.
pub open spec fn trim_start(s: Seq<char>) -> Seq<char>
    decreases s.len(),
{
    if s.len() > 0 && is_white_space(s[0]) {
        trim_start(s.subrange(1, s.len() as int))
    } else {
        s
    }
}

/// Trailing white space removed.
pub open spec fn trim_end(s: Seq<char>) -> Seq<char>
    decreases s.len(),
{
    if s.len() > 0 && is_white_space(s.last()) {
        trim_end(s.drop_last())
    } else {
        s
    }
}

/// Leading and trailing white space removed, as `str::trim` does.
pub open spec fn trim(s: Seq<char>) -> Seq<char> {
    trim_end(trim_start(s))
}

/// A line without the carriage return that ended it, if any.
pub open spec fn strip_cr(l: Seq<char>) -> Seq<char> {
    if l.len() > 0 && l.last() == '\r' {
        l.drop_last()
    } else {
        l
    }
}

/// The lines ended so far, and the line being read.
pub open spec fn lines_acc(s: Seq<char>) -> (Seq<Seq<char>>, Seq<char>)
    decreases s.len(),
{
    if s.len() == 0 {
        (Seq::empty(), Seq::empty())
    } else {
        let (done, cur) = lines_acc(s.drop_last());
        if s.last() == '\n' {
            (done.push(strip_cr(cur)), Seq::empty())
        } else {
            (done, cur.push(s.last()))
        }
    }
}

/// The lines of a text, as `str::lines` gives them: split at `\n` (and
/// `\r\n`), with no line after a final line ending.
pub open spec fn lines_of(s: Seq<char>) -> Seq<Seq<char>> {
    let (done, cur) = lines_acc(s);
    if cur.len() > 0 {
        done.push(cur)
    } else {
        done
    }
}

/// The quoted value of a `version = "..."` line.
pub open spec fn quoted_version(t: Seq<char>) -> Option<Seq<char>> {
    let p = "version = \""@;
    if starts_with_spec(t, p) && t.len() > p.len() && t.last() == '"' {
        Some(t.subrange(p.len() as int, t.len() - 1))
    } else {
        None
    }
}

/// Scanning trimmed lines: `[[package]]` starts a package, the line
/// `name = "wasm-bindgen"` marks the one sought, and the first line of it
/// that starts with `version = ` gives the answer, its quoted value if any.
pub open spec fn version_scan(ls: Seq<Seq<char>>, in_package: bool) -> Option<Seq<char>>
    decreases ls.len(),
{
    if ls.len() == 0 {
        None
    } else {
        let t = trim(ls[0]);
        let rest = ls.subrange(1, ls.len() as int);
        if t == "[[package]]"@ {
            version_scan(rest, false)
        } else if t == "name = \"wasm-bindgen\""@ {
            version_scan(rest, true)
        } else if in_package && starts_with_spec(t, "version = "@) {
            quoted_version(t)
        } else {
            version_scan(rest, in_package)
        }
    }
}

/// The version of `wasm-bindgen` that a `Cargo.lock` text pins.
pub open spec fn wasm_bindgen_version_spec(lock: Seq<char>) -> Option<Seq<char>> {
    version_scan(lines_of(lock), false)
}

fn is_white_space_char(c: char) -> (r: bool)
    ensures
        r == is_white_space(c),
{
    let u = c as u32;
    (0x9 <= u && u <= 0xd) || u == 0x20 || u == 0x85 || u == 0xa0 || u == 0x1680 || (0x2000 <= u && u <= 0x200a)
        || u == 0x2028 || u == 0x2029 || u == 0x202f || u == 0x205f || u == 0x3000
}

proof fn lemma_trim_start_skip(s: Seq<char>, i: int)
    requires
        0 <= i <= s.len(),
        forall|j: int| 0 <= j < i ==> is_white_space(s[j]),
    ensures
        trim_start(s) == trim_start(s.subrange(i, s.len() as int)),
    decreases i,
{
    if i > 0 {
        let t = s.subrange(1, s.len() as int);
        lemma_trim_start_skip(t, i - 1);
        assert(t.subrange(i - 1, t.len() as int) =~= s.subrange(i, s.len() as int));
    } else {
        assert(s.subrange(0, s.len() as int) =~= s);
    }
}

proof fn lemma_trim_end_skip(s: Seq<char>, k: int)
    requires
        0 <= k <= s.len(),
        forall|j: int| k <= j < s.len() ==> is_white_space(s[j]),
    ensures
        trim_end(s) == trim_end(s.subrange(0, k)),
    decreases s.len() - k,
{
    if k < s.len() {
        lemma_trim_end_skip(s.drop_last(), k);
        assert(s.drop_last().subrange(0, k) =~= s.subrange(0, k));
    } else {
        assert(s.subrange(0, k) =~= s);
    }
}

/// The characters of a line, trimmed.
fn trim_chars(l: &Vec<char>) -> (r: Vec<char>)
    ensures
        r@ == trim(l@),
{
    let n = l.len();
    let mut a: usize = 0;
    while a < n && is_white_space_char(l[a])
        invariant
            n == l@.len(),
            a <= n,
            forall|j: int| 0 <= j < a ==> is_white_space(l@[j]),
        decreases n - a,
    {
        a = a + 1;
    }
    proof { lemma_trim_start_skip(l@, a as int); }
    let ghost s = l@.subrange(a as int, n as int);
    assert(trim_start(s) == s);
    let mut b: usize = n;
    while b > a && is_white_space_char(l[b - 1])
        invariant
            n == l@.len(),
            a <= b <= n,
            forall|j: int| b <= j < n ==> is_white_space(l@[j]),
        decreases b - a,
    {
        b = b - 1;
    }
    proof {
        lemma_trim_end_skip(s, b - a);
        assert(s.subrange(0, b - a) =~= l@.subrange(a as int, b as int));
        let u = l@.subrange(a as int, b as int);
        assert(u.len() > 0 ==> !is_white_space(u.last()));
    }
    let mut r: Vec<char> = Vec::new();
    let mut i: usize = a;
    while i < b
        invariant
            n == l@.len(),
            a <= i <= b <= n,
            r@ == l@.subrange(a as int, i as int),
        decreases b - i,
    {
        r.push(l[i]);
        assert(l@.subrange(a as int, i + 1) =~= l@.subrange(a as int, i as int).push(l@[i as int]));
        i = i + 1;
    }
    r
}

/// The lines of a text.
fn split_lines(s: &Vec<char>) -> (r: Vec<Vec<char>>)
    ensures
        r@.map_values(|l: Vec<char>| l@) == lines_of(s@),
{
    let mut done: Vec<Vec<char>> = Vec::new();
    let mut cur: Vec<char> = Vec::new();
    let mut i: usize = 0;
    assert(s@.subrange(0, 0) =~= Seq::<char>::empty());
    while i < s.len()
        invariant
            i <= s@.len(),
            lines_acc(s@.subrange(0, i as int)) == (done@.map_values(|l: Vec<char>| l@), cur@),
        decreases s.len() - i,
    {
        let c = s[i];
        assert(s@.subrange(0, i + 1).drop_last() =~= s@.subrange(0, i as int));
        let ghost d0 = done@.map_values(|l: Vec<char>| l@);
        if c == '\n' {
            let mut line = cur;
            if line.len() > 0 && line[line.len() - 1] == '\r' {
                line.pop();
            }
            let ghost lv = line@;
            done.push(line);
            assert(done@.map_values(|l: Vec<char>| l@) =~= d0.push(lv));
            cur = Vec::new();
        } else {
            cur.push(c);
        }
        i = i + 1;
    }
    assert(s@.subrange(0, s@.len() as int) =~= s@);
    if cur.len() > 0 {
        let ghost d0 = done@.map_values(|l: Vec<char>| l@);
        let ghost cv = cur@;
        done.push(cur);
        assert(done@.map_values(|l: Vec<char>| l@) =~= d0.push(cv));
    }
    done
}

/// Whether the characters equal a text.
fn chars_eq(v: &Vec<char>, s: &str) -> (r: bool)
    ensures
        r == (v@ == s@),
{
    let n = s.unicode_len();
    if v.len() != n {
        return false;
    }
    let mut i: usize = 0;
    while i < n
        invariant
            n == s@.len(),
            n == v@.len(),
            i <= n,
            forall|j: int| 0 <= j < i ==> v@[j] == s@[j],
        decreases n - i,
    {
        if v[i] != s.get_char(i) {
            return false;
        }
        i = i + 1;
    }
    assert(v@ =~= s@);
    true
}

/// Whether the characters begin with a text.
fn chars_start_with(v: &Vec<char>, p: &str) -> (r: bool)
    ensures
        r == starts_with_spec(v@, p@),
{
    let n = p.unicode_len();
    if n > v.len() {
        return false;
    }
    let mut i: usize = 0;
    while i < n
        invariant
            n == p@.len(),
            n <= v@.len(),
            i <= n,
            forall|j: int| 0 <= j < i ==> v@[j] == p@[j],
        decreases n - i,
    {
        if v[i] != p.get_char(i) {
            assert(v@.subrange(0, n as int)[i as int] != p@[i as int]);
            return false;
        }
        i = i + 1;
    }
    assert(v@.subrange(0, n as int) =~= p@);
    true
}

/// The quoted value of a `version = "..."` line.
fn quoted_version_of(t: &Vec<char>) -> (r: Option<String>)
    ensures
        match r {
            Some(v) => quoted_version(t@) == Some(v@),
            None => quoted_version(t@) is None,
        },
{
    proof { reveal_strlit("version = \""); }
    let p = "version = \"";
    let n = p.unicode_len();
    if !chars_start_with(t, p) || t.len() <= n || t[t.len() - 1] != '"' {
        return None;
    }
    let mut r = String::new();
    let mut i: usize = n;
    while i < t.len() - 1
        invariant
            n == p@.len(),
            n < t@.len(),
            n <= i <= t@.len() - 1,
            r@ == t@.subrange(n as int, i as int),
        decreases t.len() - 1 - i,
    {
        push_char(&mut r, t[i]);
        assert(t@.subrange(n as int, i + 1) =~= t@.subrange(n as int, i as int).push(t@[i as int]));
        i = i + 1;
    }
    Some(r)
}

/// The version of `wasm-bindgen` that a `Cargo.lock` text pins: the quoted
/// `version` of the package named `wasm-bindgen`.
pub fn wasm_bindgen_version(lock: &str) -> (r: Option<String>)
    ensures
        match r {
            Some(v) => wasm_bindgen_version_spec(lock@) == Some(v@),
            None => wasm_bindgen_version_spec(lock@) is None,
        },
{
    let chars = chars_of(lock);
    let lines = split_lines(&chars);
    let ghost ls = lines@.map_values(|l: Vec<char>| l@);
    let mut in_package = false;
    let mut i: usize = 0;
    assert(ls.subrange(0, ls.len() as int) =~= ls);
    while i < lines.len()
        invariant
            i <= lines@.len(),
            ls == lines@.map_values(|l: Vec<char>| l@),
            ls == lines_of(lock@),
            version_scan(ls, false) == version_scan(ls.subrange(i as int, ls.len() as int), in_package),
        decreases lines.len() - i,
    {
        let ghost rest = ls.subrange(i as int, ls.len() as int);
        assert(rest[0] == lines@[i as int]@);
        assert(rest.subrange(1, rest.len() as int) =~= ls.subrange(i + 1, ls.len() as int));
        let t = trim_chars(&lines[i]);
        if chars_eq(&t, "[[package]]") {
            in_package = false;
        } else if chars_eq(&t, "name = \"wasm-bindgen\"") {
            in_package = true;
        } else if in_package && chars_start_with(&t, "version = ") {
            return quoted_version_of(&t);
        }
        i = i + 1;
    }
    None
}

} // verus!
