//! Errors, and the checks on the engine's path and on the images directory.
use vstd::prelude::*;
use crate::text::{prefixed, starts_with};
use crate::paths::{
    extension, extension_of, file_name, file_name_of, lemma_lex_le_antisymmetric,
    lemma_lex_le_total, lemma_lex_le_transitive, lex_le, precedes,
};

verus! {

/// `std::io::Error`, carried through unchanged.
#[verifier::external_type_specification]
#[verifier::external_body]
pub struct ExIoError(std::io::Error);

/// `std::num::ParseIntError`, carried through unchanged.
#[verifier::external_type_specification]
#[verifier::external_body]
pub struct ExParseIntError(std::num::ParseIntError);

/// `std::num::ParseFloatError`, carried through unchanged.
#[verifier::external_type_specification]
#[verifier::external_body]
pub struct ExParseFloatError(std::num::ParseFloatError);

/// `std::string::FromUtf8Error`, carried through unchanged.
#[verifier::external_type_specification]
#[verifier::external_body]
pub struct ExFromUtf8Error(std::string::FromUtf8Error);

/// Everything that can go wrong while a configuration is built or the
/// engine's output is read.
#[derive(Debug)]
pub enum Error {
    Io(std::io::Error),
    ParseFloat(std::num::ParseFloatError),
    ParseInt(std::num::ParseIntError),
    Custom(String),
    Utf8(std::string::FromUtf8Error),
    Else,
}

/// Calls the `Display` impl of `std::io::Error`. The text depends on the
/// platform, so nothing is claimed of it.
#[verifier::external_body]
fn io_error_text(e: &std::io::Error) -> (r: String) {
    format!("{}", e)
}

/// Calls the `Display` impl of `std::num::ParseFloatError`; nothing is
/// claimed of the text.
#[verifier::external_body]
fn parse_float_error_text(e: &std::num::ParseFloatError) -> (r: String) {
    format!("{}", e)
}

/// Calls the `Display` impl of `std::num::ParseIntError`; nothing is claimed
/// of the text.
#[verifier::external_body]
fn parse_int_error_text(e: &std::num::ParseIntError) -> (r: String) {
    format!("{}", e)
}

/// Calls the `Display` impl of `std::string::FromUtf8Error`; nothing is
/// claimed of the text.
#[verifier::external_body]
fn utf8_error_text(e: &std::string::FromUtf8Error) -> (r: String) {
    format!("{}", e)
}

impl Error {
    /// Whether this is the descriptive error with exactly this message.
    pub open spec fn is_custom(&self, message: Seq<char>) -> bool {
        self matches Error::Custom(m) && m@ == message
    }

    /// The error as a line of text for the user.
    pub fn to_string(&self) -> (r: String)
        ensures
            match self {
                Error::Io(_) => starts_with(r@, "IO Error: "@),
                Error::ParseFloat(_) => starts_with(r@, "Parse Error: "@),
                Error::ParseInt(_) => starts_with(r@, "Parse Error: "@),
                Error::Custom(m) => r@ == "Error: "@ + m@,
                Error::Utf8(_) => starts_with(r@, "Error: "@),
                Error::Else => r@ == "Some Error"@,
            },
    {
        match self {
            Error::Io(e) => prefixed("IO Error: ", io_error_text(e).as_str()),
            Error::ParseFloat(e) => prefixed("Parse Error: ", parse_float_error_text(e).as_str()),
            Error::ParseInt(e) => prefixed("Parse Error: ", parse_int_error_text(e).as_str()),
            Error::Custom(m) => prefixed("Error: ", m.as_str()),
            Error::Utf8(e) => prefixed("Error: ", utf8_error_text(e).as_str()),
            Error::Else => String::from_str("Some Error"),
        }
    }
}

impl From<std::io::Error> for Error {
    /// An I/O failure, kept as it is.
    fn from(err: std::io::Error) -> (r: Error) {
        Error::Io(err)
    }
}

impl vstd::std_specs::convert::FromSpecImpl<std::io::Error> for Error {
    open spec fn obeys_from_spec() -> bool {
        true
    }

    open spec fn from_spec(err: std::io::Error) -> Error {
        Error::Io(err)
    }
}

impl From<std::num::ParseFloatError> for Error {
    /// A number that could not be read, kept as it is.
    fn from(err: std::num::ParseFloatError) -> (r: Error) {
        Error::ParseFloat(err)
    }
}

impl vstd::std_specs::convert::FromSpecImpl<std::num::ParseFloatError> for Error {
    open spec fn obeys_from_spec() -> bool {
        true
    }

    open spec fn from_spec(err: std::num::ParseFloatError) -> Error {
        Error::ParseFloat(err)
    }
}

impl From<std::num::ParseIntError> for Error {
    /// A whole number that could not be read, kept as it is.
    fn from(err: std::num::ParseIntError) -> (r: Error) {
        Error::ParseInt(err)
    }
}

impl vstd::std_specs::convert::FromSpecImpl<std::num::ParseIntError> for Error {
    open spec fn obeys_from_spec() -> bool {
        true
    }

    open spec fn from_spec(err: std::num::ParseIntError) -> Error {
        Error::ParseInt(err)
    }
}

impl From<String> for Error {
    /// A descriptive error with this message.
    fn from(err: String) -> (r: Error) {
        Error::Custom(err)
    }
}

impl vstd::std_specs::convert::FromSpecImpl<String> for Error {
    open spec fn obeys_from_spec() -> bool {
        true
    }

    open spec fn from_spec(err: String) -> Error {
        Error::Custom(err)
    }
}

impl From<std::string::FromUtf8Error> for Error {
    /// Bytes that are no text, kept as they are.
    fn from(err: std::string::FromUtf8Error) -> (r: Error) {
        Error::Utf8(err)
    }
}

impl vstd::std_specs::convert::FromSpecImpl<std::string::FromUtf8Error> for Error {
    open spec fn obeys_from_spec() -> bool {
        true
    }

    open spec fn from_spec(err: std::string::FromUtf8Error) -> Error {
        Error::Utf8(err)
    }
}

/// The file name the engine's executable must have.
pub open spec fn engine_name() -> Seq<char> {
    "ffmpeg"@
}

/// Whether something exists at `path` and its file name is the engine's.
pub open spec fn engine_accepted(path: Seq<char>, probe: Result<bool, std::io::Error>) -> bool {
    probe == Ok::<bool, std::io::Error>(true) && file_name_of(path) == Some(engine_name())
}

/// What the check of the engine's path answers. A probe that failed gives
/// its failure, and a path at which nothing exists is reported as missing.
/// Where something exists, the file name decides alone: the path itself
/// where the name is the engine's, the wrong-name error for any other name
/// and for a path that has no file name at all.
pub open spec fn engine_verdict(
    path: Seq<char>,
    probe: Result<bool, std::io::Error>,
    r: Result<String, Error>,
) -> bool {
    match probe {
        Err(e) => r matches Err(Error::Io(f)) && f == e,
        Ok(false) => r matches Err(err) && err.is_custom(path + " does not exist"@),
        Ok(true) => if file_name_of(path) == Some(engine_name()) {
            r matches Ok(p) && p@ == path
        } else {
            r matches Err(err) && err.is_custom("File Name is not \"ffmpeg\""@)
        },
    }
}

/// Decides whether `path_str` can be the engine's executable. `probe` is what
/// a look at the file system gave: whether something exists at the path, or
/// the failure to find out.
///
/// The path is accepted, and returned, exactly when something exists there
/// and its file name is the engine's name.
pub fn ffmpeg_path(path_str: &str, probe: Result<bool, std::io::Error>) -> (r: Result<
    String,
    Error,
>)
    ensures
        engine_verdict(path_str@, probe, r),
        r is Ok <==> engine_accepted(path_str@, probe),
{
    match probe {
        Ok(true) => match file_name(path_str) {
            Some(name) => {
                let expected = String::from_str("ffmpeg");
                if name.eq(&expected) {
                    Ok(String::from_str(path_str))
                } else {
                    Err(Error::Custom(String::from_str("File Name is not \"ffmpeg\"")))
                }
            },
            None => Err(Error::Custom(String::from_str("File Name is not \"ffmpeg\""))),
        },
        Ok(false) => Err(Error::Custom(prefixed(path_str, " does not exist"))),
        Err(e) => Err(Error::Io(e)),
    }
}

/// The text of each string, in order.
pub open spec fn texts(v: Seq<String>) -> Seq<Seq<char>> {
    v.map_values(|s: String| s@)
}

/// The test an entry must pass to count as a frame: it has a file extension.
pub open spec fn has_extension() -> spec_fn(Seq<char>) -> bool {
    |p: Seq<char>| extension_of(p) is Some
}

/// The entries that have a file extension, in the order given.
pub open spec fn qualifying(entries: Seq<Seq<char>>) -> Seq<Seq<char>> {
    entries.filter(has_extension())
}

/// Every entry precedes, or equals, those behind it.
pub open spec fn sorted(s: Seq<Seq<char>>) -> bool {
    forall|i: int, j: int| 0 <= i < j < s.len() ==> lex_le(#[trigger] s[i], #[trigger] s[j])
}

/// `m` occurs in `among` and precedes, or equals, each of its entries.
pub open spec fn is_first(m: Seq<char>, among: Seq<Seq<char>>) -> bool {
    among.contains(m) && forall|i: int| 0 <= i < among.len() ==> lex_le(m, #[trigger] among[i])
}

/// The lexicographically smallest entry; the empty text where there is none.
pub open spec fn smallest(s: Seq<Seq<char>>) -> Seq<char>
    decreases s.len(),
{
    if s.len() == 0 {
        Seq::empty()
    } else if s.len() == 1 {
        s[0]
    } else {
        let m = smallest(s.drop_last());
        if lex_le(m, s.last()) {
            m
        } else {
            s.last()
        }
    }
}

/// `smallest` picks an entry that none precedes.
pub proof fn lemma_smallest_is_first(s: Seq<Seq<char>>)
    requires
        s.len() > 0,
    ensures
        is_first(smallest(s), s),
    decreases s.len(),
{
    if s.len() == 1 {
        lemma_lex_le_total(s[0], s[0]);
        assert(s[0] == smallest(s));
    } else {
        let rest = s.drop_last();
        lemma_smallest_is_first(rest);
        let m = smallest(rest);
        let w = choose|k: int| 0 <= k < rest.len() && rest[k] == m;
        assert(s[w] == m);
        lemma_lex_le_total(m, s.last());
        lemma_lex_le_total(s.last(), s.last());
        assert(s[s.len() - 1] == s.last());
        assert forall|i: int| 0 <= i < s.len() implies lex_le(smallest(s), #[trigger] s[i]) by {
            if i < rest.len() {
                assert(rest[i] == s[i]);
                if !lex_le(m, s.last()) {
                    lemma_lex_le_transitive(s.last(), m, s[i]);
                }
            }
        }
    }
}

/// Only one entry can be first.
pub proof fn lemma_first_is_unique(a: Seq<char>, b: Seq<char>, among: Seq<Seq<char>>)
    requires
        is_first(a, among),
        is_first(b, among),
    ensures
        a == b,
{
    let i = choose|k: int| 0 <= k < among.len() && among[k] == a;
    let j = choose|k: int| 0 <= k < among.len() && among[k] == b;
    assert(lex_le(a, among[j]));
    assert(lex_le(b, among[i]));
    lemma_lex_le_antisymmetric(a, b);
}

/// The first entry does not depend on the order of the listing, nor on how
/// often an entry is listed: two listings with the same entries have the same
/// first entry.
pub proof fn lemma_smallest_ignores_order(a: Seq<Seq<char>>, b: Seq<Seq<char>>)
    requires
        forall|x: Seq<char>| a.contains(x) <==> b.contains(x),
    ensures
        smallest(a) == smallest(b),
{
    if a.len() == 0 {
        if b.len() > 0 {
            assert(b.contains(b[0]));
        }
    } else {
        assert(a.contains(a[0]));
        assert(b.len() > 0);
        lemma_smallest_is_first(a);
        lemma_smallest_is_first(b);
        let m = smallest(a);
        assert forall|i: int| 0 <= i < b.len() implies lex_le(m, #[trigger] b[i]) by {
            assert(b.contains(b[i]));
            let k = choose|k: int| 0 <= k < a.len() && a[k] == b[i];
            assert(lex_le(m, a[k]));
        }
        lemma_first_is_unique(m, smallest(b), b);
    }
}

/// Sorting leaves no choice: two sorted sequences with the same entries,
/// each as often in one as in the other, are the same sequence.
pub proof fn lemma_sorted_is_unique(x: Seq<Seq<char>>, y: Seq<Seq<char>>)
    requires
        sorted(x),
        sorted(y),
        x.to_multiset() == y.to_multiset(),
    ensures
        x == y,
{
    let leq = |a: Seq<char>, b: Seq<char>| lex_le(a, b);
    assert forall|a: Seq<char>| #[trigger] leq(a, a) by {
        lemma_lex_le_total(a, a);
    }
    assert forall|a: Seq<char>, b: Seq<char>| #[trigger] leq(a, b) && #[trigger] leq(b, a) implies a
        == b by {
        lemma_lex_le_antisymmetric(a, b);
    }
    assert forall|a: Seq<char>, b: Seq<char>, c: Seq<char>| #[trigger]
        leq(a, b) && #[trigger] leq(b, c) implies leq(a, c) by {
        lemma_lex_le_transitive(a, b, c);
    }
    assert forall|a: Seq<char>, b: Seq<char>| #[trigger] leq(a, b) || #[trigger] leq(b, a) by {
        lemma_lex_le_total(a, b);
    }
    assert(vstd::relations::total_ordering(leq));
    assert(vstd::relations::sorted_by(x, leq));
    assert(vstd::relations::sorted_by(y, leq));
    vstd::seq_lib::lemma_sorted_unique(x, y, leq);
}

/// Puts `item` into the sorted `out`, behind the entries that precede or
/// equal it.
fn insert_sorted(out: &mut Vec<String>, item: String)
    requires
        sorted(texts(old(out)@)),
    ensures
        sorted(texts(final(out)@)),
        texts(final(out)@).to_multiset() == texts(old(out)@).to_multiset().insert(item@),
{
    let n: usize = out.len();
    let mut p: usize = 0;
    let mut found: bool = false;
    while p < n && !found
        invariant
            n == out@.len(),
            p <= n,
            *out == *old(out),
            forall|k: int| 0 <= k < p ==> lex_le(#[trigger] texts(out@)[k], item@),
            found ==> p < n && !lex_le(texts(out@)[p as int], item@),
        decreases n - p + if found { 0int } else { 1int },
    {
        if precedes(out[p].as_str(), item.as_str()) {
            p += 1;
        } else {
            found = true;
        }
    }
    let ghost before = texts(out@);
    let ghost x = item@;
    out.insert(p, item);
    proof {
        let after = texts(out@);
        assert(after =~= before.insert(p as int, x));
        assert forall|i: int, j: int| 0 <= i < j < after.len() implies lex_le(
            #[trigger] after[i],
            #[trigger] after[j],
        ) by {
            if j == p {
                assert(after[i] == before[i]);
            } else if i == p {
                assert(after[j] == before[j - 1]);
                lemma_lex_le_total(before[p as int], x);
                if j - 1 > p {
                    lemma_lex_le_transitive(x, before[p as int], before[j - 1]);
                }
            } else if i < p && j > p {
                assert(after[i] == before[i]);
                assert(after[j] == before[j - 1]);
            } else if i < p {
                assert(after[i] == before[i]);
                assert(after[j] == before[j]);
            } else {
                assert(after[i] == before[i - 1]);
                assert(after[j] == before[j - 1]);
            }
        }
        assert(after.remove(p as int) =~= before);
        after.to_multiset_ensures();
        assert(after[p as int] == x);
        assert(after.contains(x));
        assert(after.to_multiset() =~= before.to_multiset().insert(x));
    }
}

/// What `qualifying` makes of a listing with one more entry.
proof fn lemma_qualifying_step(entries: Seq<Seq<char>>, i: int)
    requires
        0 <= i < entries.len(),
    ensures
        qualifying(entries.take(i + 1)) == if extension_of(entries[i]) is Some {
            qualifying(entries.take(i)).push(entries[i])
        } else {
            qualifying(entries.take(i))
        },
{
    reveal(Seq::filter);
    assert(entries.take(i + 1).drop_last() =~= entries.take(i));
}

/// The entries of a directory that can be frames: those with a file
/// extension, in lexicographic order. The order is that of the text,
/// character by character; the entries of one directory share everything
/// before their names, so for them it is the order of the names. A listing
/// that could not be read gives the failure back.
pub fn image_paths(listing: Result<Vec<String>, std::io::Error>) -> (r: Result<Vec<String>, Error>)
    ensures
        match listing {
            Err(e) => r matches Err(Error::Io(f)) && f == e,
            Ok(entries) => r matches Ok(paths) && sorted(texts(paths@)) && texts(
                paths@,
            ).to_multiset() == qualifying(texts(entries@)).to_multiset(),
        },
{
    match listing {
        Err(e) => Err(Error::Io(e)),
        Ok(entries) => {
            let mut out: Vec<String> = Vec::new();
            let n: usize = entries.len();
            let mut i: usize = 0;
            proof {
                reveal(Seq::filter);
                assert(texts(entries@).take(0) =~= Seq::empty());
                assert(texts(out@) =~= Seq::empty());
            }
            while i < n
                invariant
                    n == entries@.len(),
                    i <= n,
                    sorted(texts(out@)),
                    texts(out@).to_multiset() == qualifying(
                        texts(entries@).take(i as int),
                    ).to_multiset(),
                decreases n - i,
            {
                proof {
                    lemma_qualifying_step(texts(entries@), i as int);
                    qualifying(texts(entries@).take(i as int)).to_multiset_ensures();
                }
                if extension(entries[i].as_str()).is_some() {
                    insert_sorted(&mut out, entries[i].clone());
                }
                i += 1;
            }
            proof {
                assert(texts(entries@).take(n as int) =~= texts(entries@));
            }
            Ok(out)
        },
    }
}

/// The pattern that selects every frame: the directory, a separator, and any
/// name with the given extension.
pub open spec fn glob_pattern(dir: Seq<char>, ext: Seq<char>) -> Seq<char> {
    dir + "/*."@ + ext
}

/// The extension that stands for the whole listing: that of its smallest
/// qualifying entry.
pub open spec fn canonical_extension(entries: Seq<Seq<char>>) -> Seq<char> {
    extension_of(smallest(qualifying(entries))).unwrap()
}

/// An entry is among the qualifying ones exactly when it is listed and has
/// an extension.
pub proof fn lemma_qualifying_contains(entries: Seq<Seq<char>>, x: Seq<char>)
    ensures
        qualifying(entries).contains(x) <==> entries.contains(x) && extension_of(x) is Some,
{
    let q = qualifying(entries);
    if q.contains(x) {
        let k = choose|k: int| 0 <= k < q.len() && q[k] == x;
        entries.lemma_filter_pred(has_extension(), k);
        entries.lemma_filter_contains_rev(has_extension(), x);
    }
    if entries.contains(x) && extension_of(x) is Some {
        let k = choose|k: int| 0 <= k < entries.len() && entries[k] == x;
        entries.lemma_filter_contains(has_extension(), k);
    }
}

/// Where a directory holds at least one entry with an extension, and all
/// such entries share the extension `ext`, the directory is accepted as far
/// as its entries go, and the pattern of its frames is the directory,
/// followed by `/*.` and `ext`.
pub proof fn lemma_shared_extension_gives_pattern(
    dir: Seq<char>,
    entries: Seq<Seq<char>>,
    ext: Seq<char>,
)
    requires
        exists|i: int| 0 <= i < entries.len() && extension_of(#[trigger] entries[i]) is Some,
        forall|i: int|
            0 <= i < entries.len() && extension_of(#[trigger] entries[i]) is Some
                ==> extension_of(entries[i]) == Some(ext),
    ensures
        qualifying(entries).len() >= 1,
        canonical_extension(entries) == ext,
        glob_pattern(dir, canonical_extension(entries)) == dir + "/*."@ + ext,
{
    let i = choose|i: int| 0 <= i < entries.len() && extension_of(#[trigger] entries[i]) is Some;
    let q = qualifying(entries);
    assert(entries.contains(entries[i]));
    lemma_qualifying_contains(entries, entries[i]);
    assert(q.len() >= 1);
    lemma_smallest_is_first(q);
    let m = smallest(q);
    lemma_qualifying_contains(entries, m);
    let j = choose|j: int| 0 <= j < entries.len() && entries[j] == m;
    assert(extension_of(entries[j]) == Some(ext));
}

/// The order in which a directory is listed decides nothing: two listings
/// with the same entries are accepted or refused together, and give the same
/// extension and so the same pattern.
pub proof fn lemma_listing_order_is_irrelevant(
    dir: Seq<char>,
    a: Seq<Seq<char>>,
    b: Seq<Seq<char>>,
)
    requires
        forall|x: Seq<char>| a.contains(x) <==> b.contains(x),
    ensures
        qualifying(a).len() == 0 <==> qualifying(b).len() == 0,
        canonical_extension(a) == canonical_extension(b),
        glob_pattern(dir, canonical_extension(a)) == glob_pattern(dir, canonical_extension(b)),
{
    let qa = qualifying(a);
    let qb = qualifying(b);
    assert forall|x: Seq<char>| qa.contains(x) <==> qb.contains(x) by {
        lemma_qualifying_contains(a, x);
        lemma_qualifying_contains(b, x);
    }
    if qa.len() > 0 {
        assert(qa.contains(qa[0]));
    }
    if qb.len() > 0 {
        assert(qb.contains(qb[0]));
    }
    lemma_smallest_ignores_order(qa, qb);
}

/// Whether the path is a directory whose listing was read and holds at
/// least one entry with an extension.
pub open spec fn images_accepted(is_dir: bool, listing: Result<Vec<String>, std::io::Error>) -> bool {
    is_dir && listing is Ok && qualifying(texts(listing->Ok_0@)).len() > 0
}

/// What the check of the images directory answers: the directory and the
/// pattern of its frames where it is accepted, else that it is no directory,
/// the failure to list it, or that it holds no frame.
pub open spec fn images_verdict(
    path: Seq<char>,
    is_dir: bool,
    listing: Result<Vec<String>, std::io::Error>,
    r: Result<(String, String), Error>,
) -> bool {
    if !is_dir {
        r matches Err(err) && err.is_custom(path + " must be a directory"@)
    } else {
        match listing {
            Err(e) => r matches Err(Error::Io(f)) && f == e,
            Ok(entries) => if qualifying(texts(entries@)).len() == 0 {
                r matches Err(err) && err.is_custom("Empty Images Folder"@)
            } else {
                r matches Ok(pair) && pair.0@ == path && pair.1@ == glob_pattern(
                    path,
                    canonical_extension(texts(entries@)),
                )
            },
        }
    }
}

/// Decides whether `path_str` can be the images directory, and derives the
/// pattern that selects its frames. `is_dir` says whether the path is an
/// existing directory, `listing` holds its entries, or the failure to read
/// them; the listing is not consulted unless `is_dir`.
///
/// Succeeds exactly when the path is a directory, its listing was read and
/// at least one entry has an extension. It then returns the directory and
/// the pattern built from the extension of the smallest such entry.
pub fn images_path(path_str: &str, is_dir: bool, listing: Result<Vec<String>, std::io::Error>) -> (r:
    Result<(String, String), Error>)
    ensures
        images_verdict(path_str@, is_dir, listing, r),
        r is Ok <==> images_accepted(is_dir, listing),
{
    if !is_dir {
        return Err(Error::Custom(prefixed(path_str, " must be a directory")));
    }
    let ghost all = if listing is Ok {
        texts(listing->Ok_0@)
    } else {
        Seq::empty()
    };
    let ghost wanted = qualifying(all);
    let paths = match image_paths(listing) {
        Ok(paths) => paths,
        Err(e) => {
            return Err(e);
        },
    };
    proof {
        texts(paths@).to_multiset_ensures();
        wanted.to_multiset_ensures();
    }
    if paths.len() == 0 {
        return Err(Error::Custom(String::from_str("Empty Images Folder")));
    }
    proof {
        let got = texts(paths@);
        let m = got[0];
        assert(got.contains(m));
        assert(got.to_multiset().count(m) > 0);
        assert(wanted.to_multiset().count(m) > 0);
        assert(wanted.contains(m));
        lemma_lex_le_total(m, m);
        assert forall|i: int| 0 <= i < wanted.len() implies lex_le(m, #[trigger] wanted[i]) by {
            assert(wanted.contains(wanted[i]));
            assert(got.to_multiset().count(wanted[i]) > 0);
            assert(got.contains(wanted[i]));
            let k = choose|k: int| 0 <= k < got.len() && got[k] == wanted[i];
            if k > 0 {
                assert(lex_le(got[0], got[k]));
            }
        }
        lemma_smallest_is_first(wanted);
        lemma_first_is_unique(m, smallest(wanted), wanted);
        let at = choose|k: int| 0 <= k < wanted.len() && wanted[k] == m;
        all.lemma_filter_pred(has_extension(), at);
    }
    match extension(paths[0].as_str()) {
        Some(ext) => {
            let mut glob = String::from_str(path_str);
            glob.append("/*.");
            glob.append(ext.as_str());
            Ok((String::from_str(path_str), glob))
        },
        None => Err(Error::Custom(String::from_str("Cannot Obtain Extension of Image File"))),
    }
}

} // verus!
