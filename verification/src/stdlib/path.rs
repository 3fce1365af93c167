//! Paths of the Chim library: text with `/` separators. A path is kept
//! normalised: backslashes become slashes and runs of slashes become one.
//! Its metadata is computed from the text alone.
use vstd::prelude::*;
use crate::strops::{sub_vec, append_vec, copy_vec};
use crate::text::{chars_of, string_from_chars, owned};

verus! {

/// `s` with every backslash turned into a slash.
pub open spec fn forward_slashes(s: Seq<char>) -> Seq<char> {
    s.map_values(|c: char| if c == '\\' { '/' } else { c })
}

/// `s` with every run of slashes shortened to one slash.
pub open spec fn squeeze_slashes(s: Seq<char>) -> Seq<char>
    decreases s.len(),
{
    if s.len() == 0 {
        s
    } else {
        let t = squeeze_slashes(s.drop_last());
        if s.last() == '/' && t.len() > 0 && t.last() == '/' { t } else { t.push(s.last()) }
    }
}

/// The normal form of a path text.
pub open spec fn normalize_spec(s: Seq<char>) -> Seq<char> {
    squeeze_slashes(forward_slashes(s))
}

/// Components of `s` after the partial component `cur`: the non-empty
/// pieces between slashes.
pub open spec fn comps_from(s: Seq<char>, cur: Seq<char>) -> Seq<Seq<char>>
    decreases s.len(),
{
    if s.len() == 0 {
        if cur.len() > 0 { seq![cur] } else { Seq::empty() }
    } else if s[0] == '/' {
        (if cur.len() > 0 { seq![cur] } else { Seq::empty() }) + comps_from(s.drop_first(), Seq::empty())
    } else {
        comps_from(s.drop_first(), cur.push(s[0]))
    }
}

/// The non-empty pieces of `s` between slashes.
pub open spec fn components(s: Seq<char>) -> Seq<Seq<char>> {
    comps_from(s, Seq::empty())
}

/// The pieces joined with `sep` between neighbours.
pub open spec fn join_spec(parts: Seq<Seq<char>>, sep: Seq<char>) -> Seq<char>
    decreases parts.len(),
{
    if parts.len() == 0 {
        Seq::empty()
    } else if parts.len() == 1 {
        parts[0]
    } else {
        join_spec(parts.drop_last(), sep) + sep + parts.last()
    }
}

/// Whether the text starts with `/` or has `:` as its second character.
pub open spec fn absolute_spec(s: Seq<char>) -> bool {
    (s.len() > 0 && s[0] == '/') || (s.len() >= 2 && s[1] == ':')
}

/// Whether the drive test can read the second character: it looks at the
/// second character whenever the text is at least two bytes long, so a text
/// of one non-ASCII character is outside it.
pub open spec fn drive_check_defined(s: Seq<char>) -> bool {
    !(s.len() == 1 && s[0] as u32 >= 0x80)
}

/// Position of the last `.` in `s`, or -1.
pub open spec fn last_dot(s: Seq<char>) -> int
    decreases s.len(),
{
    if s.len() == 0 {
        -1
    } else if s.last() == '.' {
        s.len() - 1
    } else {
        last_dot(s.drop_last())
    }
}

proof fn lemma_last_dot_range(s: Seq<char>)
    ensures
        -1 <= last_dot(s) < s.len(),
    decreases s.len(),
{
    if s.len() > 0 {
        lemma_last_dot_range(s.drop_last());
    }
}

/// Position of the last `.` in `v`.
fn last_dot_exec(v: &Vec<char>) -> (r: Option<usize>)
    ensures
        match r {
            Some(i) => last_dot(v@) == i as int,
            None => last_dot(v@) == -1,
        },
{
    let mut i: usize = v.len();
    assert(v@.subrange(0, i as int) =~= v@);
    while i > 0
        invariant
            i <= v@.len(),
            last_dot(v@) == last_dot(v@.subrange(0, i as int)),
        decreases i,
    {
        let ghost pre = v@.subrange(0, i as int);
        if v[i - 1] == '.' {
            return Some(i - 1);
        }
        assert(pre.drop_last() =~= v@.subrange(0, i - 1));
        i = i - 1;
    }
    None
}

/// A path.
#[derive(Debug, Clone, PartialEq)]
pub struct Path {
    inner: String,
}

impl View for Path {
    type V = Seq<char>;

    closed spec fn view(&self) -> Seq<char> {
        self.inner@
    }
}

/// Path metadata.
#[derive(Debug, Clone)]
pub struct Metadata {
    pub len: i64,
    pub is_dir: bool,
    pub is_file: bool,
    pub modified: i64,
}

/// Metadata read from a path's text: a directory if it ends with `/` or is
/// `.`, a file if it is not a directory and contains a `.`.
pub open spec fn dir_spec(s: Seq<char>) -> bool {
    (s.len() > 0 && s.last() == '/') || s == "."@
}

pub open spec fn file_spec(s: Seq<char>) -> bool {
    !dir_spec(s) && s.contains('.')
}

/// A path error.
#[derive(Debug, Clone)]
pub struct Error {
    message: String,
}

impl Error {
    pub closed spec fn text(&self) -> Seq<char> {
        self.message@
    }

    pub fn new(msg: String) -> (r: Error)
        ensures
            r.text() == msg@,
    {
        Error { message: msg }
    }
}

/// Normal form of a path text.
fn normalize_path(path: &String) -> (r: String)
    ensures
        r@ == normalize_spec(path@),
{
    let s = chars_of(path.as_str());
    let mut out: Vec<char> = Vec::new();
    let mut i: usize = 0;
    let ghost f = forward_slashes(s@);
    while i < s.len()
        invariant
            i <= s@.len(),
            f == forward_slashes(s@),
            out@ == squeeze_slashes(f.subrange(0, i as int)),
        decreases s@.len() - i,
    {
        let c = if s[i] == '\\' { '/' } else { s[i] };
        assert(f.subrange(0, i + 1).drop_last() =~= f.subrange(0, i as int));
        assert(f.subrange(0, i + 1).last() == c);
        let n = out.len();
        if c == '/' && n > 0 && out[n - 1] == '/' {
        } else {
            out.push(c);
        }
        i = i + 1;
    }
    assert(f.subrange(0, s@.len() as int) =~= f);
    string_from_chars(&out)
}

/// The components of a text.
fn split_path(s: &Vec<char>) -> (r: Vec<Vec<char>>)
    ensures
        r@.map_values(|v: Vec<char>| v@) == components(s@),
{
    let mut out: Vec<Vec<char>> = Vec::new();
    let mut cur: Vec<char> = Vec::new();
    let mut i: usize = 0;
    assert(s@.skip(0) =~= s@);
    while i < s.len()
        invariant
            i <= s@.len(),
            components(s@) == out@.map_values(|v: Vec<char>| v@) + comps_from(s@.skip(i as int), cur@),
        decreases s@.len() - i,
    {
        let ghost rest = s@.skip(i as int);
        assert(rest[0] == s@[i as int]);
        assert(rest.drop_first() =~= s@.skip(i + 1));
        if s[i] == '/' {
            if cur.len() > 0 {
                let ghost piece = cur@;
                let ghost before = out@.map_values(|v: Vec<char>| v@);
                out.push(cur);
                assert(out@.map_values(|v: Vec<char>| v@) =~= before.push(piece));
                assert(before + (seq![piece] + comps_from(s@.skip(i + 1), Seq::empty()))
                    =~= before.push(piece) + comps_from(s@.skip(i + 1), Seq::empty()));
                cur = Vec::new();
            } else {
                assert(Seq::<Seq<char>>::empty() + comps_from(s@.skip(i + 1), Seq::empty())
                    =~= comps_from(s@.skip(i + 1), Seq::empty()));
                cur = Vec::new();
                assert(cur@ =~= Seq::<char>::empty());
            }
        } else {
            cur.push(s[i]);
        }
        i = i + 1;
    }
    assert(s@.skip(i as int) =~= Seq::<char>::empty());
    if cur.len() > 0 {
        let ghost piece = cur@;
        let ghost before = out@.map_values(|v: Vec<char>| v@);
        out.push(cur);
        assert(out@.map_values(|v: Vec<char>| v@) =~= before + seq![piece]);
    } else {
        assert(out@.map_values(|v: Vec<char>| v@) + Seq::<Seq<char>>::empty() =~= out@.map_values(|v: Vec<char>| v@));
    }
    out
}

/// The pieces joined with `/`.
fn join_parts(parts: &Vec<Vec<char>>, n: usize) -> (r: Vec<char>)
    requires
        n <= parts@.len(),
    ensures
        r@ == join_spec(parts@.map_values(|v: Vec<char>| v@).take(n as int), "/"@),
    decreases n,
{
    proof {
        reveal_strlit("/");
    }
    if n == 0 {
        assert(parts@.map_values(|v: Vec<char>| v@).take(0) =~= Seq::<Seq<char>>::empty());
        Vec::new()
    } else if n == 1 {
        copy_vec(&parts[0])
    } else {
        let mut r = join_parts(parts, n - 1);
        r.push('/');
        append_vec(&mut r, &parts[n - 1]);
        let ghost all = parts@.map_values(|v: Vec<char>| v@);
        assert(all.take(n as int).drop_last() =~= all.take(n - 1));
        assert(r@ =~= join_spec(all.take(n - 1), "/"@) + "/"@ + all[n - 1]);
        r
    }
}

/// Whether the text starts with `/` or has `:` as its second character.
fn is_absolute_path(s: &Vec<char>) -> (r: bool)
    ensures
        r == absolute_spec(s@),
{
    if s.len() > 0 && s[0] == '/' {
        return true;
    }
    s.len() >= 2 && s[1] == ':'
}

fn path_of_chars(v: &Vec<char>) -> (r: Path)
    ensures
        r@ == normalize_spec(v@),
{
    Path::new(string_from_chars(v))
}

impl Path {
    /// A copy of the path.
    pub(crate) fn duplicate(&self) -> (r: Path)
        ensures
            r@ == self@,
    {
        Path { inner: self.inner.clone() }
    }

    /// The path of `path`, normalised.
    pub fn new(path: String) -> (r: Path)
        ensures
            r@ == normalize_spec(path@),
    {
        Path { inner: normalize_path(&path) }
    }

    pub fn as_str(&self) -> (r: String)
        ensures
            r@ == self@,
    {
        self.inner.clone()
    }

    pub fn to_string(&self) -> (r: String)
        ensures
            r@ == self@,
    {
        self.inner.clone()
    }

    /// The last component.
    pub fn file_name(&self) -> (r: Option<String>)
        ensures
            components(self@).len() == 0 ==> r is None,
            components(self@).len() > 0 ==> r is Some && r->0@ == components(self@).last(),
    {
        let s = chars_of(self.inner.as_str());
        let parts = split_path(&s);
        let n = parts.len();
        if n == 0 {
            None
        } else {
            Some(string_from_chars(&parts[n - 1]))
        }
    }

    /// The path without its last component. One component or none gives
    /// nothing for an absolute path and `.` otherwise; more components are
    /// joined with `/` again, without a leading slash.
    pub fn parent(&self) -> (r: Option<Path>)
        requires
            drive_check_defined(self@),
        ensures
            components(self@).len() <= 1 && absolute_spec(self@) ==> r is None,
            components(self@).len() <= 1 && !absolute_spec(self@) ==> r is Some && r->0@
                == normalize_spec("."@),
            components(self@).len() > 1 ==> r is Some && r->0@ == normalize_spec(
                join_spec(components(self@).drop_last(), "/"@),
            ),
    {
        let s = chars_of(self.inner.as_str());
        let parts = split_path(&s);
        let n = parts.len();
        if n <= 1 {
            if is_absolute_path(&s) {
                None
            } else {
                Some(Path::new(owned(".")))
            }
        } else {
            let joined = join_parts(&parts, n - 1);
            proof {
                assert(parts@.map_values(|v: Vec<char>| v@).take(n - 1) =~= components(self@).drop_last());
            }
            Some(path_of_chars(&joined))
        }
    }

    /// The text after the last `.` of the file name, when that `.` is neither
    /// its first nor its last character.
    pub fn extension(&self) -> (r: Option<String>)
        ensures
            ({
                let c = components(self@);
                let d = if c.len() > 0 { last_dot(c.last()) } else { -1 };
                if c.len() > 0 && d > 0 && d < c.last().len() - 1 {
                    r is Some && r->0@ == c.last().subrange(d + 1, c.last().len() as int)
                } else {
                    r is None
                }
            }),
    {
        let s = chars_of(self.inner.as_str());
        let parts = split_path(&s);
        let n = parts.len();
        if n == 0 {
            return None;
        }
        let name = copy_vec(&parts[n - 1]);
        proof {
            lemma_last_dot_range(name@);
        }
        match last_dot_exec(&name) {
            Some(p) => {
                let len = name.len();
                assert(p < len);
                if p > 0 && p < len - 1 {
                    Some(string_from_chars(&sub_vec(&name, p + 1, name.len())))
                } else {
                    None
                }
            },
            None => None,
        }
    }

    /// The file name up to its last `.`, or the whole file name.
    pub fn stem(&self) -> (r: Option<String>)
        ensures
            ({
                let c = components(self@);
                if c.len() == 0 {
                    r is None
                } else if last_dot(c.last()) >= 0 {
                    r is Some && r->0@ == c.last().subrange(0, last_dot(c.last()))
                } else {
                    r is Some && r->0@ == c.last()
                }
            }),
    {
        let s = chars_of(self.inner.as_str());
        let parts = split_path(&s);
        let n = parts.len();
        if n == 0 {
            return None;
        }
        let name = copy_vec(&parts[n - 1]);
        proof {
            lemma_last_dot_range(name@);
        }
        match last_dot_exec(&name) {
            Some(p) => Some(string_from_chars(&sub_vec(&name, 0, p))),
            None => Some(string_from_chars(&name)),
        }
    }

    pub fn is_absolute(&self) -> (r: bool)
        requires
            drive_check_defined(self@),
        ensures
            r == absolute_spec(self@),
    {
        let s = chars_of(self.inner.as_str());
        is_absolute_path(&s)
    }

    pub fn is_relative(&self) -> (r: bool)
        requires
            drive_check_defined(self@),
        ensures
            r == !absolute_spec(self@),
    {
        !self.is_absolute()
    }

    /// `other` appended after a `/` (none if this path ends with one); an
    /// empty side gives the other path.
    pub fn join(&self, other: &Path) -> (r: Path)
        ensures
            self@.len() == 0 ==> r@ == other@,
            self@.len() > 0 && other@.len() == 0 ==> r@ == self@,
            self@.len() > 0 && other@.len() > 0 && self@.last() == '/' ==> r@ == normalize_spec(
                self@ + other@,
            ),
            self@.len() > 0 && other@.len() > 0 && self@.last() != '/' ==> r@ == normalize_spec(
                self@ + "/"@ + other@,
            ),
    {
        let a = chars_of(self.inner.as_str());
        let b = chars_of(other.inner.as_str());
        if a.len() == 0 {
            return Path { inner: other.inner.clone() };
        }
        if b.len() == 0 {
            return Path { inner: self.inner.clone() };
        }
        let mut r = copy_vec(&a);
        if a[a.len() - 1] != '/' {
            r.push('/');
        }
        append_vec(&mut r, &b);
        proof {
            reveal_strlit("/");
            if a@.last() != '/' {
                assert(r@ =~= self@ + "/"@ + other@);
            }
        }
        path_of_chars(&r)
    }

    /// The stem (or nothing) followed by `.` and `ext`.
    pub fn with_extension(&self, ext: &str) -> (r: Path)
        ensures
            ({
                let c = components(self@);
                let stem = if c.len() == 0 {
                    Seq::<char>::empty()
                } else if last_dot(c.last()) >= 0 {
                    c.last().subrange(0, last_dot(c.last()))
                } else {
                    c.last()
                };
                r@ == normalize_spec(stem + "."@ + ext@)
            }),
    {
        let stem = match self.stem() {
            Some(s) => s,
            None => String::new(),
        };
        let mut v = chars_of(stem.as_str());
        v.push('.');
        let e = chars_of(ext);
        append_vec(&mut v, &e);
        proof {
            reveal_strlit(".");
            assert(v@ =~= stem@ + "."@ + ext@);
        }
        path_of_chars(&v)
    }

    /// Metadata computed from the text.
    pub fn metadata(&self) -> (r: Result<Metadata, Error>)
        ensures
            r is Ok,
            r->Ok_0.len == 0,
            r->Ok_0.modified == 0,
            r->Ok_0.is_dir == dir_spec(self@),
            r->Ok_0.is_file == file_spec(self@),
    {
        get_metadata(self)
    }

    /// Always true: the metadata is always available.
    pub fn path_exists(&self) -> (r: bool)
        ensures
            r,
    {
        self.metadata().is_ok()
    }

    pub fn is_file(&self) -> (r: bool)
        ensures
            r == file_spec(self@),
    {
        match self.metadata() {
            Ok(m) => m.is_file,
            Err(_) => false,
        }
    }

    pub fn is_dir(&self) -> (r: bool)
        ensures
            r == dir_spec(self@),
    {
        match self.metadata() {
            Ok(m) => m.is_dir,
            Err(_) => false,
        }
    }

    /// The same path, as it always exists.
    pub fn canonicalize(&self) -> (r: Result<Path, Error>)
        ensures
            r is Ok,
            r->Ok_0@ == self@,
    {
        if !self.path_exists() {
            return Err(Error::new(owned("path does not exist")));
        }
        Ok(Path { inner: self.inner.clone() })
    }
}

/// Whether `c` occurs in `v`.
fn contains_char(v: &Vec<char>, c: char) -> (r: bool)
    ensures
        r == v@.contains(c),
{
    let mut i: usize = 0;
    while i < v.len()
        invariant
            i <= v@.len(),
            forall|j: int| 0 <= j < i ==> v@[j] != c,
        decreases v@.len() - i,
    {
        if v[i] == c {
            return true;
        }
        i = i + 1;
    }
    false
}

fn get_metadata(p: &Path) -> (r: Result<Metadata, Error>)
    ensures
        r is Ok,
        r->Ok_0.len == 0,
        r->Ok_0.modified == 0,
        r->Ok_0.is_dir == dir_spec(p@),
        r->Ok_0.is_file == file_spec(p@),
{
    let s = chars_of(p.inner.as_str());
    let n = s.len();
    let ends_slash = n > 0 && s[n - 1] == '/';
    let is_dot = n == 1 && s[0] == '.';
    proof {
        reveal_strlit(".");
        if is_dot {
            assert(p@ =~= "."@);
        }
        if p@ == "."@ {
            assert(s@.len() == 1);
        }
    }
    let is_dir = ends_slash || is_dot;
    let has_dot = contains_char(&s, '.');
    Ok(Metadata { len: 0, is_dir, is_file: !is_dir && has_dot, modified: 0 })
}

/// The path `.`.
pub fn current_dir() -> (r: Path)
    ensures
        r@ == normalize_spec("."@),
{
    Path::new(owned("."))
}

} // verus!
