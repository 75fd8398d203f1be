//! Paths as text: components are separated by `/`, and everything here works
//! on the characters of a path without consulting the file system.
use vstd::prelude::*;

verus! {

/// Index of the last occurrence of `c` in `s`, or `-1` where there is none.
pub open spec fn last_index_of(s: Seq<char>, c: char) -> int
    decreases s.len(),
{
    if s.len() == 0 {
        -1
    } else if s.last() == c {
        s.len() - 1
    } else {
        last_index_of(s.drop_last(), c)
    }
}

/// `last_index_of` is an index of `c`, and no later index holds `c`.
pub proof fn lemma_last_index_of(s: Seq<char>, c: char)
    ensures
        -1 <= last_index_of(s, c) < s.len(),
        last_index_of(s, c) >= 0 ==> s[last_index_of(s, c)] == c,
        forall|j: int| last_index_of(s, c) < j < s.len() ==> s[j] != c,
    decreases s.len(),
{
    if s.len() > 0 && s.last() != c {
        lemma_last_index_of(s.drop_last(), c);
        assert forall|j: int| last_index_of(s, c) < j < s.len() implies s[j] != c by {
            if j < s.len() - 1 {
                assert(s.drop_last()[j] == s[j]);
            }
        }
    }
}

/// Where the components that can name something begin: behind a leading
/// separator, and behind a leading `.` that stands for the current
/// directory.
pub open spec fn body_start(path: Seq<char>) -> int {
    if path.len() > 0 && path[0] == '/' {
        1
    } else if path.len() > 0 && path[0] == '.' && (path.len() == 1 || path[1] == '/') {
        1
    } else {
        0
    }
}

/// The last component of `path` between `start` and `end` that names
/// something. Empty components and `.` are passed over from the back; `..`
/// names nothing.
pub open spec fn last_component(path: Seq<char>, start: int, end: int) -> Option<Seq<char>>
    decreases end - start,
{
    if end <= start || start < 0 || end > path.len() {
        None
    } else {
        let region = path.subrange(start, end);
        let sep = last_index_of(region, '/');
        let component = region.subrange(sep + 1, region.len() as int);
        if component.len() == 0 || component == seq!['.'] {
            if 0 <= sep < region.len() {
                last_component(path, start, start + sep)
            } else {
                None
            }
        } else if component == seq!['.', '.'] {
            None
        } else {
            Some(component)
        }
    }
}

/// The name of the file or directory a path ends in. Separators and `.`
/// components at the end are passed over, so `bin/tool/` and `bin/tool/.`
/// both end in `tool`; a path that ends in `..`, or has no component left,
/// names nothing.
pub open spec fn file_name_of(path: Seq<char>) -> Option<Seq<char>> {
    last_component(path, body_start(path), path.len() as int)
}

/// The extension of a path's file name: what follows its last `.`, provided
/// that dot is not the name's first character.
pub open spec fn extension_of(path: Seq<char>) -> Option<Seq<char>> {
    match file_name_of(path) {
        None => None,
        Some(name) => {
            let dot = last_index_of(name, '.');
            if dot <= 0 {
                None
            } else {
                Some(name.subrange(dot + 1, name.len() as int))
            }
        },
    }
}

/// `base` extended by `name`: an absolute `name` replaces `base`, and a
/// separator is put between the two unless `base` is empty or ends in one.
pub open spec fn joined(base: Seq<char>, name: Seq<char>) -> Seq<char> {
    if name.len() > 0 && name[0] == '/' {
        name
    } else if base.len() == 0 || base.last() == '/' {
        base + name
    } else {
        base + seq!['/'] + name
    }
}

/// Lexicographic order on text, character by character; a proper prefix
/// comes first.
pub open spec fn lex_le(a: Seq<char>, b: Seq<char>) -> bool
    decreases a.len(),
{
    if a.len() == 0 {
        true
    } else if b.len() == 0 {
        false
    } else if a[0] != b[0] {
        (a[0] as u32) < (b[0] as u32)
    } else {
        lex_le(a.drop_first(), b.drop_first())
    }
}

/// Two texts that precede each other are the same text.
pub proof fn lemma_lex_le_antisymmetric(a: Seq<char>, b: Seq<char>)
    requires
        lex_le(a, b),
        lex_le(b, a),
    ensures
        a == b,
    decreases a.len(),
{
    if a.len() == 0 || b.len() == 0 {
        assert(a =~= b);
    } else {
        lemma_lex_le_antisymmetric(a.drop_first(), b.drop_first());
        assert(a =~= seq![a[0]] + a.drop_first());
        assert(b =~= seq![b[0]] + b.drop_first());
    }
}

/// Of two texts one precedes the other.
pub proof fn lemma_lex_le_total(a: Seq<char>, b: Seq<char>)
    ensures
        lex_le(a, b) || lex_le(b, a),
    decreases a.len(),
{
    if a.len() > 0 && b.len() > 0 {
        if a[0] == b[0] {
            lemma_lex_le_total(a.drop_first(), b.drop_first());
        } else {
            let x: u32 = a[0] as u32;
            let y: u32 = b[0] as u32;
            vstd::utf8::char_u32_cast(a[0], x);
            vstd::utf8::char_u32_cast(b[0], y);
        }
    }
}

/// The order is transitive.
pub proof fn lemma_lex_le_transitive(a: Seq<char>, b: Seq<char>, c: Seq<char>)
    requires
        lex_le(a, b),
        lex_le(b, c),
    ensures
        lex_le(a, c),
    decreases a.len(),
{
    if a.len() > 0 && b.len() > 0 && c.len() > 0 && a[0] == b[0] && b[0] == c[0] {
        lemma_lex_le_transitive(a.drop_first(), b.drop_first(), c.drop_first());
    }
}

/// Texts that agree on their first `i` characters compare as their
/// remainders do.
pub proof fn lemma_lex_le_skip(a: Seq<char>, b: Seq<char>, i: int)
    requires
        0 <= i <= a.len(),
        i <= b.len(),
        forall|j: int| 0 <= j < i ==> a[j] == b[j],
    ensures
        lex_le(a, b) == lex_le(a.skip(i), b.skip(i)),
    decreases i,
{
    if i == 0 {
        assert(a.skip(0) =~= a);
        assert(b.skip(0) =~= b);
    } else {
        assert(a[0] == b[0]);
        lemma_lex_le_skip(a.drop_first(), b.drop_first(), i - 1);
        assert(a.drop_first().skip(i - 1) =~= a.skip(i));
        assert(b.drop_first().skip(i - 1) =~= b.skip(i));
    }
}

/// Where `c` last occurs in `s` between `start` and `end`, counted from
/// `start`.
pub fn find_last_between(s: &str, c: char, start: usize, end: usize) -> (r: Option<usize>)
    requires
        start <= end <= s@.len(),
    ensures
        match r {
            Some(i) => i == last_index_of(s@.subrange(start as int, end as int), c),
            None => last_index_of(s@.subrange(start as int, end as int), c) == -1,
        },
{
    let ghost region = s@.subrange(start as int, end as int);
    let mut i: usize = end;
    while i > start
        invariant
            start <= i <= end,
            end <= s@.len(),
            region == s@.subrange(start as int, end as int),
            forall|j: int| i - start <= j < end - start ==> region[j] != c,
        decreases i,
    {
        i -= 1;
        if s.get_char(i) == c {
            proof {
                lemma_last_index_of(region, c);
                assert(region[i - start] == c);
            }
            return Some(i - start);
        }
    }
    proof {
        lemma_last_index_of(region, c);
    }
    None
}

/// Where `c` last occurs in `s`.
pub fn find_last(s: &str, c: char) -> (r: Option<usize>)
    ensures
        match r {
            Some(i) => i == last_index_of(s@, c),
            None => last_index_of(s@, c) == -1,
        },
{
    let n: usize = s.unicode_len();
    assert(s@.subrange(0, n as int) =~= s@);
    find_last_between(s, c, 0, n)
}

/// Whether `a` comes before `b`, or equals it, in lexicographic order.
pub fn precedes(a: &str, b: &str) -> (r: bool)
    ensures
        r == lex_le(a@, b@),
{
    let n: usize = a.unicode_len();
    let m: usize = b.unicode_len();
    let mut i: usize = 0;
    while i < n && i < m
        invariant
            n == a@.len(),
            m == b@.len(),
            i <= n,
            i <= m,
            forall|j: int| 0 <= j < i ==> a@[j] == b@[j],
        decreases n - i,
    {
        let x: char = a.get_char(i);
        let y: char = b.get_char(i);
        if x != y {
            proof {
                lemma_lex_le_skip(a@, b@, i as int);
            }
            return x < y;
        }
        i += 1;
    }
    proof {
        lemma_lex_le_skip(a@, b@, i as int);
    }
    i == n
}

/// The file name a path ends in, if it has one.
pub fn file_name(path: &str) -> (r: Option<String>)
    ensures
        match r {
            Some(name) => file_name_of(path@) == Some(name@),
            None => file_name_of(path@) is None,
        },
{
    let n: usize = path.unicode_len();
    let start: usize = if n > 0 && path.get_char(0) == '/' {
        1
    } else if n > 0 && path.get_char(0) == '.' && (n == 1 || path.get_char(1) == '/') {
        1
    } else {
        0
    };
    let mut end: usize = n;
    while end > start
        invariant
            n == path@.len(),
            start <= end <= n,
            start == body_start(path@),
            last_component(path@, start as int, end as int) == file_name_of(path@),
        decreases end,
    {
        let ghost region = path@.subrange(start as int, end as int);
        proof {
            lemma_last_index_of(region, '/');
        }
        let sep: Option<usize> = find_last_between(path, '/', start, end);
        let from: usize = match sep {
            Some(i) => start + i + 1,
            None => start,
        };
        let len: usize = end - from;
        let name: &str = path.substring_char(from, end);
        assert(name@ =~= region.subrange(from - start, region.len() as int));
        let lone_dot: bool = len == 1 && name.get_char(0) == '.';
        if len == 0 || lone_dot {
            proof {
                if lone_dot {
                    assert(name@ =~= seq!['.']);
                }
            }
            match sep {
                Some(i) => {
                    end = start + i;
                },
                None => {
                    return None;
                },
            }
        } else if len == 2 && name.get_char(0) == '.' && name.get_char(1) == '.' {
            assert(name@ =~= seq!['.', '.']);
            return None;
        } else {
            assert(name@ != seq!['.']) by {
                if name@ == seq!['.'] {
                    assert(name@.len() == 1 && name@[0] == '.');
                }
            }
            assert(name@ != seq!['.', '.']) by {
                if name@ == seq!['.', '.'] {
                    assert(name@.len() == 2 && name@[0] == '.' && name@[1] == '.');
                }
            }
            return Some(String::from_str(name));
        }
    }
    None
}

/// The extension of the file name a path ends in, if it has one.
pub fn extension(path: &str) -> (r: Option<String>)
    ensures
        match r {
            Some(ext) => extension_of(path@) == Some(ext@),
            None => extension_of(path@) is None,
        },
{
    match file_name(path) {
        None => None,
        Some(name) => {
            proof {
                lemma_last_index_of(name@, '.');
            }
            match find_last(name.as_str(), '.') {
                None => None,
                Some(dot) => {
                    if dot == 0 {
                        None
                    } else {
                        let n: usize = name.as_str().unicode_len();
                        Some(String::from_str(name.as_str().substring_char(dot + 1, n)))
                    }
                },
            }
        },
    }
}

/// `base` extended by `name`.
pub fn join(base: &str, name: &str) -> (r: String)
    ensures
        r@ == joined(base@, name@),
{
    if name.unicode_len() > 0 && name.get_char(0) == '/' {
        return String::from_str(name);
    }
    let n: usize = base.unicode_len();
    let mut out = String::from_str(base);
    if n > 0 && base.get_char(n - 1) != '/' {
        proof {
            reveal_strlit("/");
            assert("/"@ =~= seq!['/']);
        }
        out.append("/");
    }
    out.append(name);
    out
}

} // verus!
