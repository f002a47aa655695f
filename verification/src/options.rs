//! Commit-detail options: a set of flags over the domain {DATE, HASH, MESSAGE},
//! with a permissive textual form (comma-separated, case-insensitive names,
//! whitespace-trimmed, unknown tokens ignored, parsing never fails).

use vstd::prelude::*;
use vstd::string::*;

verus! {

/// Is `c` a whitespace character? The list is the Unicode white-space set
/// that `char::is_whitespace` recognizes.
pub open spec fn is_space(c: char) -> bool {
    let u = c as u32;
    (9 <= u && u <= 13) || u == 32 || u == 0x85 || u == 0xA0 || u == 0x1680 || (0x2000 <= u && u
        <= 0x200A) || u == 0x2028 || u == 0x2029 || u == 0x202F || u == 0x205F || u == 0x3000
}

/// The scalar value of `c` with an ASCII upper-case letter folded to lower
/// case; other characters are unchanged.
pub open spec fn lower_u(c: char) -> u32 {
    let u = c as u32;
    if 65 <= u && u <= 90 {
        (u + 32) as u32
    } else {
        u
    }
}

/// Does `t` spell the (lower-case) keyword `kw`, comparing ASCII letters
/// case-insensitively?
pub open spec fn matches_kw(t: Seq<char>, kw: Seq<char>) -> bool {
    t.len() == kw.len() && forall|i: int| 0 <= i < t.len() ==> lower_u(t[i]) == kw[i] as u32
}

/// `s` with leading and trailing whitespace removed.
pub open spec fn trim_spec(s: Seq<char>) -> Seq<char>
    decreases s.len(),
{
    if s.len() > 0 && is_space(s[0]) {
        trim_spec(s.drop_first())
    } else if s.len() > 0 && is_space(s.last()) {
        trim_spec(s.drop_last())
    } else {
        s
    }
}

/// The flags a single comma-separated token contributes: one named flag,
/// the full set for "all", and nothing for anything unrecognized.
pub open spec fn token_flags(t: Seq<char>) -> CommitOptions {
    let u = trim_spec(t);
    if matches_kw(u, "date"@) {
        CommitOptions { date: true, hash: false, message: false }
    } else if matches_kw(u, "hash"@) {
        CommitOptions { date: false, hash: true, message: false }
    } else if matches_kw(u, "message"@) {
        CommitOptions { date: false, hash: false, message: true }
    } else if matches_kw(u, "all"@) {
        CommitOptions::spec_all()
    } else {
        CommitOptions::spec_empty()
    }
}

/// The index of the first comma in `s`, or `s.len()` if there is none.
pub open spec fn first_comma(s: Seq<char>) -> nat
    decreases s.len(),
{
    if s.len() == 0 {
        0
    } else if s[0] == ',' {
        0
    } else {
        1 + first_comma(s.drop_first())
    }
}

/// What parsing a textual flag list yields: the union of the flags of its
/// comma-separated tokens. Parsing never fails.
pub open spec fn parse_spec(s: Seq<char>) -> CommitOptions
    decreases s.len(),
{
    let fc = first_comma(s);
    if fc >= s.len() {
        token_flags(s)
    } else {
        token_flags(s.take(fc as int)).spec_union(parse_spec(s.skip(fc as int + 1)))
    }
}

/// `first_comma` points at a comma, and no comma comes before it.
proof fn lemma_first_comma(s: Seq<char>)
    ensures
        first_comma(s) <= s.len(),
        first_comma(s) < s.len() ==> s[first_comma(s) as int] == ',',
        forall|j: int| 0 <= j < first_comma(s) ==> s[j] != ',',
    decreases s.len(),
{
    if s.len() == 0 || s[0] == ',' {
    } else {
        lemma_first_comma(s.drop_first());
        assert forall|j: int| 0 <= j < first_comma(s) implies s[j] != ',' by {
            if j > 0 {
                assert(s.drop_first()[j - 1] != ',');
                assert(s.drop_first()[j - 1] == s[j]);
            }
        }
    }
}

/// Characterizes trimming by the index of the first and last non-whitespace
/// characters: everything before `a` and from `b` on is whitespace, and the
/// boundary characters are not (when any remain).
proof fn lemma_trim_bounds(s: Seq<char>, a: int, b: int)
    requires
        0 <= a <= b <= s.len(),
        forall|i: int| 0 <= i < a ==> is_space(s[i]),
        forall|i: int| b <= i < s.len() ==> is_space(s[i]),
        a < b ==> !is_space(s[a]) && !is_space(s[b - 1]),
        a == b ==> a == 0,
    ensures
        trim_spec(s) == s.subrange(a, b),
    decreases s.len(),
{
    if s.len() == 0 {
        assert(s.subrange(a, b) =~= s);
    } else if is_space(s[0]) {
        if a == b {
            lemma_trim_bounds(s.drop_first(), 0, 0);
            assert(s.drop_first().subrange(0, 0) =~= s.subrange(0, 0));
        } else {
            lemma_trim_bounds(s.drop_first(), a - 1, b - 1);
            assert(s.drop_first().subrange(a - 1, b - 1) =~= s.subrange(a, b));
        }
    } else if is_space(s.last()) {
        assert(b < s.len()) by {
            if b == s.len() {
                if a < b {
                    assert(!is_space(s[b - 1]));
                } else {
                    assert(is_space(s[0]));
                }
            }
        }
        lemma_trim_bounds(s.drop_last(), a, b);
        assert(s.drop_last().subrange(a, b) =~= s.subrange(a, b));
    } else {
        assert(a == 0 && b == s.len()) by {
            if a > 0 {
                assert(is_space(s[0]));
            }
            if b < s.len() {
                assert(is_space(s[s.len() - 1]));
            }
        }
        assert(s.subrange(a, b) =~= s);
    }
}

/// Is `c` a whitespace character? (Executable form of [`is_space`].)
fn is_space_c(c: char) -> (r: bool)
    ensures
        r == is_space(c),
{
    let u = c as u32;
    (9 <= u && u <= 13) || u == 32 || u == 0x85 || u == 0xA0 || u == 0x1680 || (0x2000 <= u && u
        <= 0x200A) || u == 0x2028 || u == 0x2029 || u == 0x202F || u == 0x205F || u == 0x3000
}

/// Does `s[from..to]` spell `kw`, folding ASCII upper case to lower case?
fn eq_ignore_case(s: &str, from: usize, to: usize, kw: &str) -> (r: bool)
    requires
        from <= to <= s@.len(),
    ensures
        r == matches_kw(s@.subrange(from as int, to as int), kw@),
{
    let ghost t = s@.subrange(from as int, to as int);
    let klen = kw.unicode_len();
    if to - from != klen {
        return false;
    }
    let mut j: usize = 0;
    while j < klen
        invariant
            j <= klen,
            klen == kw@.len(),
            to - from == klen,
            from <= to <= s@.len(),
            t == s@.subrange(from as int, to as int),
            forall|x: int| 0 <= x < j ==> lower_u(t[x]) == kw@[x] as u32,
        decreases klen - j,
    {
        let c = s.get_char(from + j);
        let k = kw.get_char(j);
        let cu = c as u32;
        let cl = if 65 <= cu && cu <= 90 {
            cu + 32
        } else {
            cu
        };
        proof {
            assert(t[j as int] == s@[from + j]);
        }
        if cl != k as u32 {
            assert(lower_u(t[j as int]) != kw@[j as int] as u32);
            return false;
        }
        j = j + 1;
    }
    true
}

/// The flags contributed by the token `s[from..to]`.
fn token_flags_at(s: &str, from: usize, to: usize) -> (r: CommitOptions)
    requires
        from <= to <= s@.len(),
    ensures
        r == token_flags(s@.subrange(from as int, to as int)),
{
    let ghost t = s@.subrange(from as int, to as int);
    let mut a = from;
    loop
        invariant
            from <= a <= to <= s@.len(),
            t == s@.subrange(from as int, to as int),
            forall|j: int| from <= j < a ==> is_space(s@[j]),
        ensures
            from <= a <= to,
            forall|j: int| from <= j < a ==> is_space(s@[j]),
            a < to ==> !is_space(s@[a as int]),
        decreases to - a,
    {
        if a == to {
            break ;
        }
        if !is_space_c(s.get_char(a)) {
            break ;
        }
        a = a + 1;
    }
    if a == to {
        proof {
            assert(forall|i: int| 0 <= i < t.len() ==> is_space(t[i]));
            lemma_trim_bounds(t, 0, 0);
            assert(trim_spec(t) =~= Seq::<char>::empty());
            reveal_strlit("date");
            reveal_strlit("hash");
            reveal_strlit("message");
            reveal_strlit("all");
        }
        return CommitOptions::empty();
    }
    let mut b = to;
    loop
        invariant
            a < b || b == a,
            a <= b <= to,
            a < to,
            from <= a,
            to <= s@.len(),
            !is_space(s@[a as int]),
            t == s@.subrange(from as int, to as int),
            forall|j: int| b <= j < to ==> is_space(s@[j]),
        ensures
            a < b <= to,
            forall|j: int| b <= j < to ==> is_space(s@[j]),
            !is_space(s@[b - 1]),
        decreases b - a,
    {
        if b == a {
            proof {
                assert(is_space(s@[a as int]));
            }
            break ;
        }
        if !is_space_c(s.get_char(b - 1)) {
            break ;
        }
        b = b - 1;
    }
    proof {
        lemma_trim_bounds(t, a - from, b - from);
        assert(t.subrange(a - from, b - from) =~= s@.subrange(a as int, b as int));
        assert(trim_spec(t) == s@.subrange(a as int, b as int));
    }
    if eq_ignore_case(s, a, b, "date") {
        CommitOptions { date: true, hash: false, message: false }
    } else if eq_ignore_case(s, a, b, "hash") {
        CommitOptions { date: false, hash: true, message: false }
    } else if eq_ignore_case(s, a, b, "message") {
        CommitOptions { date: false, hash: false, message: true }
    } else if eq_ignore_case(s, a, b, "all") {
        CommitOptions::all()
    } else {
        CommitOptions::empty()
    }
}

/// A set of commit-detail flags selecting which parts of the last-commit
/// section a status report carries.
#[derive(Clone, Copy, Debug, PartialEq, Eq, Structural)]
pub struct CommitOptions {
    pub date: bool,
    pub hash: bool,
    pub message: bool,
}

impl CommitOptions {
    /// The empty flag set.
    pub open spec fn spec_empty() -> CommitOptions {
        CommitOptions { date: false, hash: false, message: false }
    }

    /// The full flag set.
    pub open spec fn spec_all() -> CommitOptions {
        CommitOptions { date: true, hash: true, message: true }
    }

    pub open spec fn spec_is_empty(self) -> bool {
        self === Self::spec_empty()
    }

    /// Set union of two flag sets.
    pub open spec fn spec_union(self, other: CommitOptions) -> CommitOptions {
        CommitOptions {
            date: self.date || other.date,
            hash: self.hash || other.hash,
            message: self.message || other.message,
        }
    }

    /// Does `self` include every flag of `other`?
    pub open spec fn spec_contains(self, other: CommitOptions) -> bool {
        &&& (other.date ==> self.date)
        &&& (other.hash ==> self.hash)
        &&& (other.message ==> self.message)
    }

    pub fn empty() -> (r: CommitOptions)
        ensures
            r == Self::spec_empty(),
    {
        CommitOptions { date: false, hash: false, message: false }
    }

    pub fn all() -> (r: CommitOptions)
        ensures
            r == Self::spec_all(),
    {
        CommitOptions { date: true, hash: true, message: true }
    }

    pub fn is_empty(&self) -> (r: bool)
        ensures
            r == self.spec_is_empty(),
    {
        !self.date && !self.hash && !self.message
    }

    pub fn union(self, other: CommitOptions) -> (r: CommitOptions)
        ensures
            r == self.spec_union(other),
    {
        CommitOptions {
            date: self.date || other.date,
            hash: self.hash || other.hash,
            message: self.message || other.message,
        }
    }

    pub fn contains(&self, other: CommitOptions) -> (r: bool)
        ensures
            r == self.spec_contains(other),
    {
        (!other.date || self.date) && (!other.hash || self.hash) && (!other.message || self.message)
    }

    /// The number of distinct flags in the domain: the size of the full set.
    pub fn length() -> (r: usize)
        ensures
            r == 3,
    {
        let full = Self::all();
        let mut n: usize = 0;
        if full.date {
            n = n + 1;
        }
        if full.hash {
            n = n + 1;
        }
        if full.message {
            n = n + 1;
        }
        n
    }

    /// Parses a comma-separated, case-insensitive list of flag names.
    /// Tokens are whitespace-trimmed; "all" selects every flag; unrecognized
    /// tokens are ignored rather than rejected, so parsing never fails.
    pub fn parse(s: &str) -> (r: CommitOptions)
        ensures
            r == parse_spec(s@),
    {
        let n = s.unicode_len();
        let mut acc = Self::empty();
        let mut start: usize = 0;
        let mut i: usize = 0;
        proof {
            assert(s@.skip(0) =~= s@);
            assert(Self::spec_empty().spec_union(parse_spec(s@)) == parse_spec(s@));
        }
        while i < n
            invariant
                start <= i <= n,
                n == s@.len(),
                forall|j: int| start <= j < i ==> s@[j] != ',',
                parse_spec(s@) == acc.spec_union(parse_spec(s@.skip(start as int))),
            decreases n - i,
        {
            let c = s.get_char(i);
            if c == ',' {
                let t = token_flags_at(s, start, i);
                proof {
                    let rest = s@.skip(start as int);
                    lemma_first_comma(rest);
                    assert forall|j: int| 0 <= j < i - start implies rest[j] != ',' by {
                        assert(rest[j] == s@[start + j]);
                    }
                    assert(rest[i - start as int] == ',');
                    let fc = first_comma(rest) as int;
                    assert(fc == i - start as int) by {
                        if fc < i - start as int {
                            assert(rest[fc] == ',');
                        } else if fc > i - start as int {
                            assert(rest[i - start as int] != ',');
                        }
                    }
                    assert(rest.take(fc) =~= s@.subrange(start as int, i as int));
                    assert(rest.skip(fc + 1) =~= s@.skip(i as int + 1));
                    assert(parse_spec(rest) == token_flags(s@.subrange(start as int, i as int))
                        .spec_union(parse_spec(s@.skip(i as int + 1))));
                    assert(acc.spec_union(parse_spec(rest)) == acc.spec_union(t).spec_union(
                        parse_spec(s@.skip(i as int + 1)),
                    ));
                }
                acc = acc.union(t);
                start = i + 1;
            }
            i = i + 1;
        }
        let t = token_flags_at(s, start, n);
        proof {
            let rest = s@.skip(start as int);
            lemma_first_comma(rest);
            assert forall|j: int| 0 <= j < rest.len() implies rest[j] != ',' by {
                assert(rest[j] == s@[start + j]);
            }
            assert(first_comma(rest) == rest.len()) by {
                if first_comma(rest) < rest.len() {
                    assert(rest[first_comma(rest) as int] == ',');
                }
            }
            assert(rest =~= s@.subrange(start as int, n as int));
            assert(parse_spec(rest) == token_flags(rest));
        }
        acc.union(t)
    }
}

} // verus!
