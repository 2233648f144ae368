//! The grammar of git clone URLs from which a repository's provider, user
//! and name are read:
//! `(git@|https://)HOST[:/]OWNER/NAME.git`, searched for anywhere in the
//! text, where the earliest starting match wins and, among the matches that
//! start there, the one with the longest HOST, then the longest OWNER, then
//! the longest NAME (the leftmost-first, greedy reading).

use vstd::prelude::*;

verus! {

/// The two spellings of the clone-URL grammar.
pub enum UrlPattern {
    /// OWNER is `[a-zA-Z0-9-_/.]+` and NAME is `[a-zA-Z0-9-._]+`: owners may
    /// hold nested groups.
    Nested,
    /// OWNER and NAME are both `[a-zA-Z0-9-]+`.
    Flat,
}

/// The character classes of the grammar.
pub enum CharClass {
    /// `[a-zA-Z0-9.]`
    Host,
    /// `[a-zA-Z0-9-_/.]`
    NestedOwner,
    /// `[a-zA-Z0-9-._]`
    NestedName,
    /// `[a-zA-Z0-9-]`
    Word,
}

pub open spec fn ascii_alnum(c: char) -> bool {
    ('a' <= c && c <= 'z') || ('A' <= c && c <= 'Z') || ('0' <= c && c <= '9')
}

pub open spec fn in_class(cls: CharClass, c: char) -> bool {
    match cls {
        CharClass::Host => ascii_alnum(c) || c == '.',
        CharClass::NestedOwner => ascii_alnum(c) || c == '-' || c == '_' || c == '/' || c == '.',
        CharClass::NestedName => ascii_alnum(c) || c == '-' || c == '.' || c == '_',
        CharClass::Word => ascii_alnum(c) || c == '-',
    }
}

pub open spec fn owner_class(p: UrlPattern) -> CharClass {
    match p {
        UrlPattern::Nested => CharClass::NestedOwner,
        UrlPattern::Flat => CharClass::Word,
    }
}

pub open spec fn name_class(p: UrlPattern) -> CharClass {
    match p {
        UrlPattern::Nested => CharClass::NestedName,
        UrlPattern::Flat => CharClass::Word,
    }
}

/// Every character of `s` in `[lo, hi)` is in `cls`.
pub open spec fn all_in(s: Seq<char>, lo: int, hi: int, cls: CharClass) -> bool {
    forall|k: int| lo <= k < hi ==> in_class(cls, #[trigger] s[k])
}

/// The length of the scheme (`git@` or `https://`) that starts at `i`, or 0.
pub open spec fn scheme_len(s: Seq<char>, i: int) -> int {
    if 0 <= i && i + 4 <= s.len() && s.subrange(i, i + 4) == seq!['g', 'i', 't', '@'] {
        4
    } else if 0 <= i && i + 8 <= s.len() && s.subrange(i, i + 8) == seq![
        'h',
        't',
        't',
        'p',
        's',
        ':',
        '/',
        '/',
    ] {
        8
    } else {
        0
    }
}

/// `s[i..c + 4]` matches the grammar, with the host ending at `a`, the owner
/// at `b` and the name at `c`.
pub open spec fn is_match(p: UrlPattern, s: Seq<char>, i: int, a: int, b: int, c: int) -> bool {
    let n = scheme_len(s, i);
    &&& n > 0
    &&& i + n < a < s.len()
    &&& all_in(s, i + n, a, CharClass::Host)
    &&& (s[a] == ':' || s[a] == '/')
    &&& a + 1 < b < s.len()
    &&& all_in(s, a + 1, b, owner_class(p))
    &&& s[b] == '/'
    &&& b + 1 < c
    &&& c + 4 <= s.len()
    &&& all_in(s, b + 1, c, name_class(p))
    &&& s.subrange(c, c + 4) == seq!['.', 'g', 'i', 't']
}

/// Some match of the grammar starts at `i`.
pub open spec fn matches_at(p: UrlPattern, s: Seq<char>, i: int) -> bool {
    exists|a: int, b: int, c: int| is_match(p, s, i, a, b, c)
}

/// `s` holds a match of the grammar somewhere.
pub open spec fn has_clone_url(p: UrlPattern, s: Seq<char>) -> bool {
    exists|i: int| matches_at(p, s, i)
}

/// `(a2, b2, c2)` comes no later than `(a, b, c)` in lexicographic order.
pub open spec fn lex_le(a2: int, b2: int, c2: int, a: int, b: int, c: int) -> bool {
    a2 < a || (a2 == a && (b2 < b || (b2 == b && c2 <= c)))
}

/// `(i, a, b, c)` is the match that the leftmost-first, greedy search
/// reports: no match starts earlier, and among those that start at `i` it
/// ends each part as late as possible, in order.
pub open spec fn is_reported_match(p: UrlPattern, s: Seq<char>, i: int, a: int, b: int, c: int) -> bool {
    &&& is_match(p, s, i, a, b, c)
    &&& forall|i2: int| 0 <= i2 < i ==> !matches_at(p, s, i2)
    &&& forall|a2: int, b2: int, c2: int|
        #![trigger is_match(p, s, i, a2, b2, c2)]
        is_match(p, s, i, a2, b2, c2) ==> lex_le(a2, b2, c2, a, b, c)
}

/// The provider, user and repository that a match captures.
pub open spec fn captured(s: Seq<char>, i: int, a: int, b: int, c: int) -> (Seq<char>, Seq<char>, Seq<char>) {
    (s.subrange(i + scheme_len(s, i), a), s.subrange(a + 1, b), s.subrange(b + 1, c))
}

/// The provider, user and repository that `s` names, when it holds a clone URL.
pub open spec fn clone_url_parts(p: UrlPattern, s: Seq<char>) -> Option<(Seq<char>, Seq<char>, Seq<char>)> {
    if has_clone_url(p, s) {
        let (i, a, b, c) = choose|i: int, a: int, b: int, c: int| is_reported_match(p, s, i, a, b, c);
        Some(captured(s, i, a, b, c))
    } else {
        None
    }
}

pub fn class_has(cls: &CharClass, c: char) -> (r: bool)
    ensures
        r == in_class(*cls, c),
{
    let alnum = ('a' <= c && c <= 'z') || ('A' <= c && c <= 'Z') || ('0' <= c && c <= '9');
    match cls {
        CharClass::Host => alnum || c == '.',
        CharClass::NestedOwner => alnum || c == '-' || c == '_' || c == '/' || c == '.',
        CharClass::NestedName => alnum || c == '-' || c == '.' || c == '_',
        CharClass::Word => alnum || c == '-',
    }
}

/// The end of the longest run of `cls` characters that starts at `from`.
fn run_end(s: &Vec<char>, from: usize, cls: &CharClass) -> (e: usize)
    requires
        from <= s.len(),
    ensures
        from <= e <= s.len(),
        all_in(s@, from as int, e as int, *cls),
        e == s.len() || !in_class(*cls, s@[e as int]),
{
    let mut e = from;
    while e < s.len() && class_has(cls, s[e])
        invariant
            from <= e <= s.len(),
            all_in(s@, from as int, e as int, *cls),
        decreases s.len() - e,
    {
        e = e + 1;
    }
    e
}

fn scheme_len_at(s: &Vec<char>, i: usize) -> (n: usize)
    requires
        i <= s.len(),
    ensures
        n as int == scheme_len(s@, i as int),
{
    let len = s.len();
    if len - i >= 4 && s[i] == 'g' && s[i + 1] == 'i' && s[i + 2] == 't' && s[i + 3] == '@' {
        assert(s@.subrange(i as int, i + 4) =~= seq!['g', 'i', 't', '@']);
        return 4;
    }
    if len - i >= 4 {
        assert(s@.subrange(i as int, i + 4)[0] == s@[i as int]);
        assert(s@.subrange(i as int, i + 4)[1] == s@[i + 1]);
        assert(s@.subrange(i as int, i + 4)[2] == s@[i + 2]);
        assert(s@.subrange(i as int, i + 4)[3] == s@[i + 3]);
    }
    if len - i >= 8 && s[i] == 'h' && s[i + 1] == 't' && s[i + 2] == 't' && s[i + 3] == 'p'
        && s[i + 4] == 's' && s[i + 5] == ':' && s[i + 6] == '/' && s[i + 7] == '/' {
        assert(s@.subrange(i as int, i + 8) =~= seq!['h', 't', 't', 'p', 's', ':', '/', '/']);
        return 8;
    }
    if len - i >= 8 {
        let ghost t = s@.subrange(i as int, i + 8);
        assert(t[0] == s@[i as int] && t[1] == s@[i + 1] && t[2] == s@[i + 2] && t[3] == s@[i + 3]);
        assert(t[4] == s@[i + 4] && t[5] == s@[i + 5] && t[6] == s@[i + 6] && t[7] == s@[i + 7]);
    }
    0
}

fn dot_git_at(s: &Vec<char>, c: usize) -> (r: bool)
    requires
        c + 4 <= s.len(),
    ensures
        r == (s@.subrange(c as int, c + 4) == seq!['.', 'g', 'i', 't']),
{
    let r = s[c] == '.' && s[c + 1] == 'g' && s[c + 2] == 'i' && s[c + 3] == 't';
    let ghost t = s@.subrange(c as int, c + 4);
    assert(t[0] == s@[c as int] && t[1] == s@[c + 1] && t[2] == s@[c + 2] && t[3] == s@[c + 3]);
    if r {
        assert(t =~= seq!['.', 'g', 'i', 't']);
    }
    r
}


fn owner_class_of(p: &UrlPattern) -> (c: CharClass)
    ensures
        c == owner_class(*p),
{
    match p {
        UrlPattern::Nested => CharClass::NestedOwner,
        UrlPattern::Flat => CharClass::Word,
    }
}

fn name_class_of(p: &UrlPattern) -> (c: CharClass)
    ensures
        c == name_class(*p),
{
    match p {
        UrlPattern::Nested => CharClass::NestedName,
        UrlPattern::Flat => CharClass::Word,
    }
}

/// The greedy match that starts at `i`, if any.
fn match_at(p: &UrlPattern, s: &Vec<char>, i: usize) -> (r: Option<(usize, usize, usize)>)
    requires
        i <= s.len(),
    ensures
        match r {
            Some((a, b, c)) => {
                &&& is_match(*p, s@, i as int, a as int, b as int, c as int)
                &&& forall|a2: int, b2: int, c2: int|
                    #![trigger is_match(*p, s@, i as int, a2, b2, c2)]
                    is_match(*p, s@, i as int, a2, b2, c2) ==> lex_le(
                        a2,
                        b2,
                        c2,
                        a as int,
                        b as int,
                        c as int,
                    )
            },
            None => !matches_at(*p, s@, i as int),
        },
{
    let len = s.len();
    let n = scheme_len_at(s, i);
    if n == 0 {
        assert forall|a2: int, b2: int, c2: int| !is_match(*p, s@, i as int, a2, b2, c2) by {}
        return None;
    }
    let host_start = i + n;
    if host_start > len {
        assert forall|a2: int, b2: int, c2: int| !is_match(*p, s@, i as int, a2, b2, c2) by {}
        return None;
    }
    let a = run_end(s, host_start, &CharClass::Host);
    if a == host_start || a >= len || !(s[a] == ':' || s[a] == '/') {
        assert forall|a2: int, b2: int, c2: int| !is_match(*p, s@, i as int, a2, b2, c2) by {
            if is_match(*p, s@, i as int, a2, b2, c2) {
                if a2 < a {
                    assert(in_class(CharClass::Host, s@[a2]));
                } else if a2 > a {
                    assert(in_class(CharClass::Host, s@[a as int]));
                }
            }
        }
        return None;
    }
    assert forall|a2: int, b2: int, c2: int| is_match(*p, s@, i as int, a2, b2, c2) implies a2
        == a by {
        if a2 < a {
            assert(in_class(CharClass::Host, s@[a2]));
        } else if a2 > a {
            assert(in_class(CharClass::Host, s@[a as int]));
        }
    }
    let oc = owner_class_of(p);
    let nc = name_class_of(p);
    let r3 = run_end(s, a + 1, &oc);
    let mut b: usize = if r3 < len { r3 } else { len - 1 };
    assert forall|a2: int, b2: int, c2: int| is_match(*p, s@, i as int, a2, b2, c2) implies b2
        <= b by {
        if b2 > r3 {
            assert(in_class(owner_class(*p), s@[r3 as int]));
        }
    }
    while b > a + 1
        invariant
            len == s.len(),
            a < len,
            host_start < a,
            b < len,
            s@[a as int] == ':' || s@[a as int] == '/',
            n as int == scheme_len(s@, i as int),
            n > 0,
            host_start == i + n,
            all_in(s@, host_start as int, a as int, CharClass::Host),
            all_in(s@, a + 1, r3 as int, owner_class(*p)),
            a + 1 <= r3 <= len,
            b <= r3,
            oc == owner_class(*p),
            nc == name_class(*p),
            forall|a2: int, b2: int, c2: int|
                #![trigger is_match(*p, s@, i as int, a2, b2, c2)]
                is_match(*p, s@, i as int, a2, b2, c2) ==> a2 == a && b2 <= b,
        decreases b,
    {
        if s[b] == '/' && len >= 4 {
            let r4 = run_end(s, b + 1, &nc);
            let mut c: usize = if r4 <= len - 4 { r4 } else { len - 4 };
            assert forall|a2: int, b2: int, c2: int|
                is_match(*p, s@, i as int, a2, b2, c2) && b2 == b implies c2 <= c by {
                if c2 > r4 {
                    assert(in_class(name_class(*p), s@[r4 as int]));
                }
            }
            while c > b + 1
                invariant
                    len == s.len(),
                    b < len,
                    c + 4 <= len,
                    forall|a2: int, b2: int, c2: int|
                        #![trigger is_match(*p, s@, i as int, a2, b2, c2)]
                        is_match(*p, s@, i as int, a2, b2, c2) && b2 == b ==> c2 <= c,
                    c <= r4,
                    all_in(s@, b + 1, r4 as int, name_class(*p)),
                    s@[b as int] == '/',
                    a + 1 < b,
                    b <= r3,
                    all_in(s@, a + 1, r3 as int, owner_class(*p)),
                    s@[a as int] == ':' || s@[a as int] == '/',
                    n as int == scheme_len(s@, i as int),
                    n > 0,
                    host_start == i + n,
                    all_in(s@, host_start as int, a as int, CharClass::Host),
                    host_start < a,
                    forall|a2: int, b2: int, c2: int|
                        #![trigger is_match(*p, s@, i as int, a2, b2, c2)]
                        is_match(*p, s@, i as int, a2, b2, c2) ==> a2 == a && b2 <= b,
                decreases c,
            {
                if dot_git_at(s, c) {
                    assert(all_in(s@, a + 1, b as int, owner_class(*p)));
                    assert(all_in(s@, b + 1, c as int, name_class(*p)));
                    assert(is_match(*p, s@, i as int, a as int, b as int, c as int));
                    return Some((a, b, c));
                }
                c = c - 1;
            }
        }
        b = b - 1;
    }
    assert forall|a2: int, b2: int, c2: int| !is_match(*p, s@, i as int, a2, b2, c2) by {}
    None
}


/// The reported match is unique.
pub proof fn lemma_reported_match_unique(
    p: UrlPattern,
    s: Seq<char>,
    i: int,
    a: int,
    b: int,
    c: int,
    i2: int,
    a2: int,
    b2: int,
    c2: int,
)
    requires
        is_reported_match(p, s, i, a, b, c),
        is_reported_match(p, s, i2, a2, b2, c2),
    ensures
        i == i2 && a == a2 && b == b2 && c == c2,
{
    assert(matches_at(p, s, i));
    assert(matches_at(p, s, i2));
    assert(is_match(p, s, i, a2, b2, c2) ==> lex_le(a2, b2, c2, a, b, c));
}

proof fn lemma_parts_of_reported(p: UrlPattern, s: Seq<char>, i: int, a: int, b: int, c: int)
    requires
        is_reported_match(p, s, i, a, b, c),
    ensures
        clone_url_parts(p, s) == Some(captured(s, i, a, b, c)),
{
    assert(matches_at(p, s, i));
    assert(has_clone_url(p, s));
    let (i2, a2, b2, c2) = choose|i2: int, a2: int, b2: int, c2: int|
        is_reported_match(p, s, i2, a2, b2, c2);
    lemma_reported_match_unique(p, s, i, a, b, c, i2, a2, b2, c2);
}

/// The leftmost-first match of the grammar in `s`, if any.
fn find_match(p: &UrlPattern, s: &Vec<char>) -> (r: Option<(usize, usize, usize, usize)>)
    ensures
        match r {
            Some((i, a, b, c)) => is_reported_match(
                *p,
                s@,
                i as int,
                a as int,
                b as int,
                c as int,
            ),
            None => !has_clone_url(*p, s@),
        },
{
    let mut i: usize = 0;
    while i < s.len()
        invariant
            i <= s.len(),
            forall|i2: int| 0 <= i2 < i ==> !matches_at(*p, s@, i2),
        decreases s.len() - i,
    {
        match match_at(p, s, i) {
            Some((a, b, c)) => {
                return Some((i, a, b, c));
            },
            None => {},
        }
        i = i + 1;
    }
    assert forall|i2: int| !matches_at(*p, s@, i2) by {
        if i2 >= s.len() && matches_at(*p, s@, i2) {
            let (a2, b2, c2) = choose|a2: int, b2: int, c2: int| is_match(*p, s@, i2, a2, b2, c2);
            assert(is_match(*p, s@, i2, a2, b2, c2));
        }
    }
    None
}

/// The provider, user and repository that the clone URL in `url` names, or
/// `None` where `url` holds no clone URL.
pub fn find_clone_url_parts(p: &UrlPattern, url: &str) -> (r: Option<(String, String, String)>)
    ensures
        match r {
            Some((provider, user, repo)) => clone_url_parts(*p, url@) == Some(
                (provider@, user@, repo@),
            ),
            None => clone_url_parts(*p, url@) is None,
        },
{
    let s = crate::text::chars_of(url);
    match find_match(p, &s) {
        Some((i, a, b, c)) => {
            proof {
                lemma_parts_of_reported(*p, s@, i as int, a as int, b as int, c as int);
            }
            let n = scheme_len_at(&s, i);
            let provider = crate::text::string_of(&crate::text::slice_chars(&s, i + n, a));
            let user = crate::text::string_of(&crate::text::slice_chars(&s, a + 1, b));
            let repo = crate::text::string_of(&crate::text::slice_chars(&s, b + 1, c));
            Some((provider, user, repo))
        },
        None => None,
    }
}


/// The text of a clone URL with the given scheme, separator and parts.
pub open spec fn clone_url_text(scheme: Seq<char>, sep: char, host: Seq<char>, owner: Seq<char>, name: Seq<char>) -> Seq<char> {
    scheme + host + seq![sep] + owner + seq!['/'] + name + seq!['.', 'g', 'i', 't']
}

/// The scheme and separator are one of the two spellings: `git@HOST:` or
/// `https://HOST/`.
pub open spec fn scheme_with_sep(scheme: Seq<char>, sep: char) -> bool {
    (scheme == seq!['g', 'i', 't', '@'] && sep == ':') || (scheme == seq![
        'h',
        't',
        't',
        'p',
        's',
        ':',
        '/',
        '/',
    ] && sep == '/')
}

/// A clone URL written from a host, an owner and a repository name gives
/// them back: `git@HOST:OWNER/NAME.git` and `https://HOST/OWNER/NAME.git`
/// read as `(HOST, OWNER, NAME)` whenever each part is nonempty and made
/// of the characters its place admits.
pub proof fn lemma_clone_url_round_trip(
    p: UrlPattern,
    scheme: Seq<char>,
    sep: char,
    host: Seq<char>,
    owner: Seq<char>,
    name: Seq<char>,
)
    requires
        scheme_with_sep(scheme, sep),
        host.len() > 0,
        all_in(host, 0, host.len() as int, CharClass::Host),
        owner.len() > 0,
        all_in(owner, 0, owner.len() as int, owner_class(p)),
        name.len() > 0,
        all_in(name, 0, name.len() as int, name_class(p)),
    ensures
        clone_url_parts(p, clone_url_text(scheme, sep, host, owner, name)) == Some((host, owner, name)),
{
    let s = clone_url_text(scheme, sep, host, owner, name);
    let n = scheme.len() as int;
    let a = n + host.len();
    let b = a + 1 + owner.len();
    let c = b + 1 + name.len();
    assert(s.len() == c + 4);
    assert(s.subrange(0, n) =~= scheme);
    assert(s.subrange(n, a) =~= host);
    assert(s[a] == sep);
    assert(s.subrange(a + 1, b) =~= owner);
    assert(s[b] == '/');
    assert(s.subrange(b + 1, c) =~= name);
    assert(s.subrange(c, c + 4) =~= seq!['.', 'g', 'i', 't']);
    if n == 8 {
        assert(s.subrange(0, 4) =~= seq!['h', 't', 't', 'p']);
        assert(s.subrange(0, 4) != seq!['g', 'i', 't', '@']) by {
            assert(s.subrange(0, 4)[0] != seq!['g', 'i', 't', '@'][0]);
        }
    }
    assert(scheme_len(s, 0) == n);
    assert(all_in(s, n, a, CharClass::Host)) by {
        assert forall|k: int| n <= k < a implies in_class(CharClass::Host, #[trigger] s[k]) by {
            assert(s[k] == s.subrange(n, a)[k - n]);
        }
    }
    assert(all_in(s, a + 1, b, owner_class(p))) by {
        assert forall|k: int| a + 1 <= k < b implies in_class(owner_class(p), #[trigger] s[k]) by {
            assert(s[k] == s.subrange(a + 1, b)[k - (a + 1)]);
        }
    }
    assert(all_in(s, b + 1, c, name_class(p))) by {
        assert forall|k: int| b + 1 <= k < c implies in_class(name_class(p), #[trigger] s[k]) by {
            assert(s[k] == s.subrange(b + 1, c)[k - (b + 1)]);
        }
    }
    assert(is_match(p, s, 0, a, b, c));
    assert forall|a2: int, b2: int, c2: int| is_match(p, s, 0, a2, b2, c2) implies lex_le(
        a2,
        b2,
        c2,
        a,
        b,
        c,
    ) by {
        if a2 < a {
            assert(in_class(CharClass::Host, s[a2]));
        } else if a2 > a {
            assert(in_class(CharClass::Host, s[a]));
        }
        if b2 > b {
            if b2 < c {
                assert(s[b2] == s.subrange(b + 1, c)[b2 - (b + 1)]);
                assert(in_class(name_class(p), s[b2]));
            } else {
                assert(s[b2] == s.subrange(c, c + 4)[b2 - c]);
            }
        }
    }
    assert(is_reported_match(p, s, 0, a, b, c));
    lemma_parts_of_reported(p, s, 0, a, b, c);
    assert(captured(s, 0, a, b, c) == (host, owner, name));
}

} // verus!
