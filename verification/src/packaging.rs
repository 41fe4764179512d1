//! The decisions of the packaging plugin, which writes the module tree that
//! includes the generated files: which options its parameter holds, which
//! packages the tree covers, where an item goes in a file that starts with
//! header comments and inner attributes, and the features the plugin
//! declares to `protoc`.
use vstd::prelude::*;
use crate::text::{
    chars_equal, find_char, find_in, lemma_find_char, push_all, str_chars, string_from_chars,
};

verus! {

/// Whether `c` has Unicode's `White_Space` property, which is what
/// `char::is_whitespace` answers.
pub open spec fn is_white_space(c: char) -> bool {
    ||| '\u{9}' <= c <= '\u{d}'
    ||| c == ' '
    ||| c == '\u{85}'
    ||| c == '\u{a0}'
    ||| c == '\u{1680}'
    ||| '\u{2000}' <= c <= '\u{200a}'
    ||| c == '\u{2028}'
    ||| c == '\u{2029}'
    ||| c == '\u{202f}'
    ||| c == '\u{205f}'
    ||| c == '\u{3000}'
}

/// Whether `c` has Unicode's `White_Space` property.
pub fn white_space(c: char) -> (r: bool)
    ensures
        r == is_white_space(c),
{
    ('\u{9}' <= c && c <= '\u{d}') || c == ' ' || c == '\u{85}' || c == '\u{a0}' || c == '\u{1680}'
        || ('\u{2000}' <= c && c <= '\u{200a}') || c == '\u{2028}' || c == '\u{2029}' || c
        == '\u{202f}' || c == '\u{205f}' || c == '\u{3000}'
}

/// `s` without its leading white space, as `str::trim_start` gives it.
pub open spec fn trim_start(s: Seq<char>) -> Seq<char>
    decreases s.len(),
{
    if s.len() > 0 && is_white_space(s[0]) {
        trim_start(s.drop_first())
    } else {
        s
    }
}

/// Whether a line belongs to a file's header: after its leading white space
/// it is empty, a `//` comment or an inner attribute (`#!`).
pub open spec fn is_header_line(line: Seq<char>) -> bool {
    let t = trim_start(line);
    ||| t.len() == 0
    ||| t.len() >= 2 && t[0] == '/' && t[1] == '/'
    ||| t.len() >= 2 && t[0] == '#' && t[1] == '!'
}

/// The end of the line that starts at `pos`: the index of the next `\n`, or
/// the end of `s`.
pub open spec fn line_end(s: Seq<char>, pos: int) -> int {
    match find_char(s.subrange(pos, s.len() as int), '\n') {
        Some(i) => pos + i,
        None => s.len() as int,
    }
}

/// Where the header of `s` that starts at line start `pos` ends: after
/// every header line and its `\n`, and at most at the end of `s`.
pub open spec fn header_end(s: Seq<char>, pos: int) -> int
    decreases s.len() - pos,
{
    if pos < 0 || pos >= s.len() {
        pos
    } else {
        proof {
            lemma_find_char(s.subrange(pos, s.len() as int), '\n');
        }
        let end = line_end(s, pos);
        if !is_header_line(s.subrange(pos, end)) {
            pos
        } else if end < s.len() {
            header_end(s, end + 1)
        } else {
            s.len() as int
        }
    }
}

/// `file` with `item` and a `\n` inserted after its header: its leading
/// comments, inner attributes and blank lines.
pub open spec fn spliced(file: Seq<char>, item: Seq<char>) -> Seq<char> {
    let h = header_end(file, 0);
    file.subrange(0, h) + item + seq!['\n'] + file.subrange(h, file.len() as int)
}

/// Whether `cs[lo..hi]` is a header line.
fn header_line(cs: &Vec<char>, lo: usize, hi: usize) -> (r: bool)
    requires
        lo <= hi <= cs@.len(),
    ensures
        r == is_header_line(cs@.subrange(lo as int, hi as int)),
{
    let mut j: usize = lo;
    while j < hi && white_space(cs[j])
        invariant
            lo <= j <= hi <= cs@.len(),
            trim_start(cs@.subrange(lo as int, hi as int)) == trim_start(
                cs@.subrange(j as int, hi as int),
            ),
        decreases hi - j,
    {
        assert(cs@.subrange(j as int, hi as int).drop_first() =~= cs@.subrange(
            j + 1,
            hi as int,
        ));
        j = j + 1;
    }
    assert(trim_start(cs@.subrange(j as int, hi as int)) == cs@.subrange(j as int, hi as int));
    let n = hi - j;
    n == 0 || (n >= 2 && ((cs[j] == '/' && cs[j + 1] == '/') || (cs[j] == '#' && cs[j + 1]
        == '!')))
}

/// Insert `item` into `file` just after the leading header comments and
/// inner attributes (`#![...]`), which must remain the first tokens in a Rust
/// file. Everything from the first real item onward follows `item`.
///
/// The file must have `\n` line endings, with no `\r`.
pub fn splice_after_inner_attrs(file: &str, item: &str) -> (r: String)
    requires
        !file@.contains('\r'),
    ensures
        r@ == spliced(file@, item@),
{
    let cs = str_chars(file);
    let its = str_chars(item);
    let n = cs.len();
    let mut pos: usize = 0;
    while pos < n
        invariant_except_break
            pos <= n == cs@.len(),
            header_end(cs@, 0) == header_end(cs@, pos as int),
        ensures
            pos <= n == cs@.len(),
            header_end(cs@, 0) == pos,
        decreases n - pos,
    {
        proof {
            lemma_find_char(cs@.subrange(pos as int, n as int), '\n');
        }
        let end = match find_in(&cs, pos, n, '\n') {
            Some(i) => pos + i,
            None => n,
        };
        if !header_line(&cs, pos, end) {
            break;
        }
        if end < n {
            pos = end + 1;
        } else {
            pos = n;
        }
    }
    let mut out: Vec<char> = Vec::new();
    let mut i: usize = 0;
    while i < pos
        invariant
            pos <= n == cs@.len(),
            i <= pos,
            out@ == cs@.subrange(0, i as int),
        decreases pos - i,
    {
        out.push(cs[i]);
        i = i + 1;
        assert(out@ =~= cs@.subrange(0, i as int));
    }
    push_all(&mut out, &its);
    out.push('\n');
    let mut k: usize = pos;
    while k < n
        invariant
            pos <= k <= n == cs@.len(),
            out@ == cs@.subrange(0, pos as int) + its@ + seq!['\n'] + cs@.subrange(
                pos as int,
                k as int,
            ),
        decreases n - k,
    {
        out.push(cs[k]);
        k = k + 1;
        assert(out@ =~= cs@.subrange(0, pos as int) + its@ + seq!['\n'] + cs@.subrange(
            pos as int,
            k as int,
        ));
    }
    string_from_chars(out)
}

/// The `CodeGeneratorResponse` feature bits the plugin declares:
/// proto3 `optional` fields (1) and editions (2).
pub fn feature_flags() -> (r: u64)
    ensures
        r == 3,
{
    let proto3_optional: u64 = 1;
    let supports_editions: u64 = 2;
    let flags: u64 = proto3_optional | supports_editions;
    assert(proto3_optional | supports_editions == 3) by (bit_vector)
        requires
            proto3_optional == 1,
            supports_editions == 2,
    ;
    flags
}

/// `s` without its trailing white space, as `str::trim_end` gives it.
pub open spec fn trim_end(s: Seq<char>) -> Seq<char>
    decreases s.len(),
{
    if s.len() > 0 && is_white_space(s.last()) {
        trim_end(s.drop_last())
    } else {
        s
    }
}

/// `s` without its leading and trailing white space, as `str::trim` gives
/// it.
pub open spec fn trim(s: Seq<char>) -> Seq<char> {
    trim_end(trim_start(s))
}

/// The pieces of `s` from `i` on between commas, the first of which starts
/// with `cur`.
pub open spec fn split_from(s: Seq<char>, i: int, cur: Seq<char>) -> Seq<Seq<char>>
    decreases s.len() - i,
{
    if i >= s.len() {
        seq![cur]
    } else if s[i] == ',' {
        seq![cur] + split_from(s, i + 1, Seq::empty())
    } else {
        split_from(s, i + 1, cur.push(s[i]))
    }
}

/// The pieces of `s` between commas, as `str::split(',')` gives them: one
/// more than there are commas, empty ones included.
pub open spec fn split_commas(s: Seq<char>) -> Seq<Seq<char>> {
    split_from(s, 0, Seq::empty())
}

/// Which files of the request the module tree covers.
#[derive(Clone, Copy, Debug, PartialEq, Eq, Structural)]
pub enum Filter {
    /// Every file the request asks for.
    All,
    /// Only the files that declare a service.
    Services,
}

/// One option of the plugin's parameter.
#[derive(Clone, Debug, PartialEq, Eq)]
pub enum PluginOption {
    /// `filter=services`.
    Filter(Filter),
    /// `shared_descriptor_pool=true` or `=false`.
    SharedPool(bool),
    /// `exclude_package=<pkg>`: the package as written, before it is
    /// normalized.
    ExcludePackage(String),
    /// `element_memory_limit=<bytes>`, which governs how the request itself
    /// is decoded and is read before it.
    ElementMemoryLimit,
}

/// The view of a [`PluginOption`].
pub enum PluginOptionView {
    /// See [`PluginOption::Filter`].
    Filter(Filter),
    /// See [`PluginOption::SharedPool`].
    SharedPool(bool),
    /// See [`PluginOption::ExcludePackage`].
    ExcludePackage(Seq<char>),
    /// See [`PluginOption::ElementMemoryLimit`].
    ElementMemoryLimit,
}

impl View for PluginOption {
    type V = PluginOptionView;

    open spec fn view(&self) -> PluginOptionView {
        match self {
            PluginOption::Filter(f) => PluginOptionView::Filter(*f),
            PluginOption::SharedPool(b) => PluginOptionView::SharedPool(*b),
            PluginOption::ExcludePackage(p) => PluginOptionView::ExcludePackage(p@),
            PluginOption::ElementMemoryLimit => PluginOptionView::ElementMemoryLimit,
        }
    }
}

/// A string as Rust's `Debug` writes it: quoted, with its special
/// characters escaped.
pub uninterp spec fn debug_str(s: Seq<char>) -> Seq<char>;

/// Whether every character of `s` is printable ASCII other than `"` and
/// `\`: the characters that `Debug` for `str` writes as they are.
pub open spec fn debug_plain(s: Seq<char>) -> bool {
    forall|i: int| 0 <= i < s.len() ==> ' ' <= #[trigger] s[i] <= '~' && s[i] != '"' && s[i] != '\\'
}

/// `s` as `Debug` writes it: between double quotes, as it is where
/// [`debug_plain`] holds, else with the escapes that `debug_str` names.
pub open spec fn debug_text(s: Seq<char>) -> Seq<char> {
    if debug_plain(s) {
        seq!['"'] + s + seq!['"']
    } else {
        debug_str(s)
    }
}

/// `s` as `format!("{:?}", s)` writes it for a `str`. Its documentation
/// shows a string in double quotes, with printable ASCII other than `"`
/// and `\` kept as it is; the escapes of the other characters are named
/// here and not stated.
#[verifier::external_body]
fn debug_quoted(cs: &Vec<char>) -> (r: Vec<char>)
    ensures
        r@ == debug_str(cs@),
        r@ == debug_text(cs@),
{
    let s: String = cs.iter().collect();
    format!("{s:?}").chars().collect()
}

/// Whether `s` starts with `p`.
pub open spec fn starts_with(s: Seq<char>, p: Seq<char>) -> bool {
    p.len() <= s.len() && s.subrange(0, p.len() as int) == p
}

/// The option name that sets the element-memory limit.
pub open spec fn element_memory_limit_opt() -> Seq<char> {
    "element_memory_limit"@
}

/// What one option, `opt` (trimmed and not empty), says, or the error for
/// it.
pub open spec fn parse_option(opt: Seq<char>) -> Result<PluginOptionView, Seq<char>> {
    if starts_with(opt, "filter="@) {
        let v = trim(opt.skip("filter="@.len() as int));
        if v == "services"@ {
            Ok(PluginOptionView::Filter(Filter::Services))
        } else {
            Err("unknown filter "@ + debug_text(v) + ". Supported: services"@)
        }
    } else if starts_with(opt, "shared_descriptor_pool="@) {
        let v = trim(opt.skip("shared_descriptor_pool="@.len() as int));
        if v == "true"@ {
            Ok(PluginOptionView::SharedPool(true))
        } else if v == "false"@ {
            Ok(PluginOptionView::SharedPool(false))
        } else {
            Err(
                "invalid shared_descriptor_pool value "@ + debug_text(v)
                    + ", expected true or false"@,
            )
        }
    } else if starts_with(opt, "exclude_package="@) {
        Ok(PluginOptionView::ExcludePackage(opt.skip("exclude_package="@.len() as int)))
    } else if find_char(opt, '=') matches Some(i) && trim(opt.take(i)) == element_memory_limit_opt() {
        Ok(PluginOptionView::ElementMemoryLimit)
    } else {
        Err(
            "unknown plugin option "@ + debug_text(opt)
                + ". Supported: filter=services, exclude_package=<pkg>, element_memory_limit=<bytes>, shared_descriptor_pool=<bool>"@,
        )
    }
}

/// The options of the pieces `ps` from `i` on, after `done`: the trimmed
/// pieces that are not empty, in order, up to the first that is not
/// understood, and the error for that one.
pub open spec fn parse_pieces(ps: Seq<Seq<char>>, i: int, done: Seq<PluginOptionView>) -> (
    Seq<PluginOptionView>,
    Option<Seq<char>>,
)
    decreases ps.len() - i,
{
    if i >= ps.len() {
        (done, None)
    } else if trim(ps[i]).len() == 0 {
        parse_pieces(ps, i + 1, done)
    } else {
        match parse_option(trim(ps[i])) {
            Ok(o) => parse_pieces(ps, i + 1, done.push(o)),
            Err(e) => (done, Some(e)),
        }
    }
}

/// What the plugin's parameter `params` says: its options, up to the first
/// that is not understood, and the error for that one.
pub open spec fn spec_parse_options(params: Seq<char>) -> (Seq<PluginOptionView>, Option<Seq<char>>) {
    parse_pieces(split_commas(params), 0, Seq::empty())
}

/// The characters of `cs` from `lo` to `hi`.
fn sub_chars(cs: &Vec<char>, lo: usize, hi: usize) -> (r: Vec<char>)
    requires
        lo <= hi <= cs@.len(),
    ensures
        r@ == cs@.subrange(lo as int, hi as int),
{
    let mut out: Vec<char> = Vec::new();
    let mut i: usize = lo;
    while i < hi
        invariant
            lo <= i <= hi <= cs@.len(),
            out@ == cs@.subrange(lo as int, i as int),
        decreases hi - i,
    {
        out.push(cs[i]);
        i = i + 1;
        assert(out@ =~= cs@.subrange(lo as int, i as int));
    }
    out
}

/// `cs` without its leading and trailing white space.
fn trim_chars(cs: &Vec<char>) -> (r: Vec<char>)
    ensures
        r@ == trim(cs@),
{
    let n = cs.len();
    let mut lo: usize = 0;
    assert(cs@.subrange(0, n as int) =~= cs@);
    while lo < n && white_space(cs[lo])
        invariant
            lo <= n == cs@.len(),
            trim_start(cs@) == trim_start(cs@.subrange(lo as int, n as int)),
        decreases n - lo,
    {
        assert(cs@.subrange(lo as int, n as int).drop_first() =~= cs@.subrange(lo + 1, n as int));
        lo = lo + 1;
    }
    let mut hi: usize = n;
    while hi > lo && white_space(cs[hi - 1])
        invariant
            lo <= hi <= n == cs@.len(),
            trim_start(cs@) == cs@.subrange(lo as int, n as int),
            trim(cs@) == trim_end(cs@.subrange(lo as int, hi as int)),
        decreases hi - lo,
    {
        assert(cs@.subrange(lo as int, hi as int).drop_last() =~= cs@.subrange(lo as int, hi - 1));
        hi = hi - 1;
    }
    sub_chars(cs, lo, hi)
}

/// Whether `cs` starts with `p`.
fn starts_with_chars(cs: &Vec<char>, p: &Vec<char>) -> (r: bool)
    ensures
        r == starts_with(cs@, p@),
{
    if p.len() > cs.len() {
        return false;
    }
    let mut i: usize = 0;
    while i < p.len()
        invariant
            p@.len() <= cs@.len(),
            i <= p@.len(),
            forall|j: int| 0 <= j < i ==> cs@[j] == p@[j],
        decreases p@.len() - i,
    {
        if cs[i] != p[i] {
            assert(cs@.subrange(0, p@.len() as int)[i as int] != p@[i as int]);
            return false;
        }
        i = i + 1;
    }
    assert(cs@.subrange(0, p@.len() as int) =~= p@);
    true
}

/// Whether `cs` is `p`.
fn same_chars(cs: &Vec<char>, p: &Vec<char>) -> (r: bool)
    ensures
        r == (cs@ == p@),
{
    if cs.len() != p.len() {
        return false;
    }
    let r = starts_with_chars(cs, p);
    proof {
        if r {
            assert(cs@ =~= cs@.subrange(0, p@.len() as int));
        } else {
            assert(cs@.subrange(0, p@.len() as int) =~= cs@);
        }
    }
    r
}

/// `a`, then `b`, then `c`.
fn join3(a: &str, b: &Vec<char>, c: &str) -> (r: Vec<char>)
    ensures
        r@ == a@ + b@ + c@,
{
    let mut out = str_chars(a);
    push_all(&mut out, b);
    push_all(&mut out, &str_chars(c));
    out
}

/// What one option, `opt` (trimmed and not empty), says, or the error for
/// it.
fn parse_one(opt: &Vec<char>) -> (r: Result<PluginOption, Vec<char>>)
    ensures
        match r {
            Ok(o) => parse_option(opt@) == Ok::<PluginOptionView, Seq<char>>(o@),
            Err(e) => parse_option(opt@) == Err::<PluginOptionView, Seq<char>>(e@),
        },
{
    let n = opt.len();
    let filter = str_chars("filter=");
    let pool = str_chars("shared_descriptor_pool=");
    let exclude = str_chars("exclude_package=");
    if starts_with_chars(opt, &filter) {
        let v = trim_chars(&sub_chars(opt, filter.len(), n));
        assert(opt@.subrange(filter@.len() as int, n as int) =~= opt@.skip("filter="@.len() as int));
        if same_chars(&v, &str_chars("services")) {
            Ok(PluginOption::Filter(Filter::Services))
        } else {
            Err(join3("unknown filter ", &debug_quoted(&v), ". Supported: services"))
        }
    } else if starts_with_chars(opt, &pool) {
        let v = trim_chars(&sub_chars(opt, pool.len(), n));
        assert(opt@.subrange(pool@.len() as int, n as int) =~= opt@.skip(
            "shared_descriptor_pool="@.len() as int,
        ));
        if same_chars(&v, &str_chars("true")) {
            Ok(PluginOption::SharedPool(true))
        } else if same_chars(&v, &str_chars("false")) {
            Ok(PluginOption::SharedPool(false))
        } else {
            Err(
                join3(
                    "invalid shared_descriptor_pool value ",
                    &debug_quoted(&v),
                    ", expected true or false",
                ),
            )
        }
    } else if starts_with_chars(opt, &exclude) {
        let v = sub_chars(opt, exclude.len(), n);
        assert(v@ =~= opt@.skip("exclude_package="@.len() as int));
        Ok(PluginOption::ExcludePackage(string_from_chars(v)))
    } else {
        let limit = match find_in(opt, 0, n, '=') {
            Some(i) => {
                assert(opt@.subrange(0, n as int) =~= opt@);
                let k = trim_chars(&sub_chars(opt, 0, i));
                assert(opt@.subrange(0, i as int) =~= opt@.take(i as int));
                same_chars(&k, &str_chars("element_memory_limit"))
            },
            None => {
                assert(opt@.subrange(0, n as int) =~= opt@);
                false
            },
        };
        if limit {
            Ok(PluginOption::ElementMemoryLimit)
        } else {
            Err(
                join3(
                    "unknown plugin option ",
                    &debug_quoted(opt),
                    ". Supported: filter=services, exclude_package=<pkg>, element_memory_limit=<bytes>, shared_descriptor_pool=<bool>",
                ),
            )
        }
    }
}

/// Read the plugin's parameter `params`: its comma-separated options, each
/// trimmed, the empty ones skipped. Returns the options in order, up to the
/// first one that is not understood, and the error for that one, if any.
///
/// An `exclude_package` option comes back as written: normalizing the
/// package, which can fail too, is the code generator's.
pub fn parse_options(params: &str) -> (r: (Vec<PluginOption>, Option<String>))
    ensures
        r.0@.map_values(|o: PluginOption| o@) == spec_parse_options(params@).0,
        match r.1 {
            Some(e) => spec_parse_options(params@).1 == Some(e@),
            None => spec_parse_options(params@).1 is None,
        },
{
    let cs = str_chars(params);
    let n = cs.len();
    let mut pieces: Vec<Vec<char>> = Vec::new();
    let mut cur: Vec<char> = Vec::new();
    let mut i: usize = 0;
    while i < n
        invariant
            i <= n == cs@.len(),
            split_commas(cs@) == pieces@.map_values(|v: Vec<char>| v@) + split_from(
                cs@,
                i as int,
                cur@,
            ),
        decreases n - i,
    {
        let ghost before = pieces@.map_values(|v: Vec<char>| v@);
        if cs[i] == ',' {
            let done = cur;
            cur = Vec::new();
            pieces.push(done);
            assert(pieces@.map_values(|v: Vec<char>| v@) =~= before.push(done@));
            assert(before + split_from(cs@, i as int, done@) =~= before.push(done@) + split_from(
                cs@,
                i + 1,
                cur@,
            ));
        } else {
            cur.push(cs[i]);
        }
        i = i + 1;
    }
    let ghost before = pieces@.map_values(|v: Vec<char>| v@);
    let last = cur;
    pieces.push(last);
    assert(pieces@.map_values(|v: Vec<char>| v@) =~= before + seq![last@]);
    let ghost ps = pieces@.map_values(|v: Vec<char>| v@);
    let mut opts: Vec<PluginOption> = Vec::new();
    assert(opts@.map_values(|o: PluginOption| o@) =~= Seq::<PluginOptionView>::empty());
    let mut k: usize = 0;
    while k < pieces.len()
        invariant
            k <= pieces@.len(),
            ps == pieces@.map_values(|v: Vec<char>| v@),
            ps == split_commas(cs@),
            cs@ == params@,
            spec_parse_options(params@) == parse_pieces(
                ps,
                k as int,
                opts@.map_values(|o: PluginOption| o@),
            ),
        decreases pieces@.len() - k,
    {
        let t = trim_chars(&pieces[k]);
        if t.len() > 0 {
            match parse_one(&t) {
                Ok(o) => {
                    let ghost done = opts@.map_values(|o: PluginOption| o@);
                    opts.push(o);
                    assert(opts@.map_values(|o: PluginOption| o@) =~= done.push(o@));
                },
                Err(e) => {
                    return (opts, Some(string_from_chars(e)));
                },
            }
        }
        k = k + 1;
    }
    (opts, None)
}

// ── Package selection ───────────────────────────────────────────────────────

/// What the package selection reads of one file descriptor of a request.
#[derive(Clone, Debug)]
pub struct FileSummary {
    /// The file's name, where the descriptor gives one.
    pub name: Option<String>,
    /// The file's proto package; empty where it declares none.
    pub package: String,
    /// Whether the file declares at least one `service`.
    pub has_service: bool,
    /// Whether the `exclude_package` options drop the file's package, as
    /// the code generator's exclusion predicate decides.
    pub excluded: bool,
}

/// The view of a [`FileSummary`].
pub struct FileSummaryView {
    /// See [`FileSummary::name`].
    pub name: Option<Seq<char>>,
    /// See [`FileSummary::package`].
    pub package: Seq<char>,
    /// See [`FileSummary::has_service`].
    pub has_service: bool,
    /// See [`FileSummary::excluded`].
    pub excluded: bool,
}

impl View for FileSummary {
    type V = FileSummaryView;

    open spec fn view(&self) -> FileSummaryView {
        FileSummaryView {
            name: match self.name {
                Some(n) => Some(n@),
                None => None,
            },
            package: self.package@,
            has_service: self.has_service,
            excluded: self.excluded,
        }
    }
}

/// Whether the module tree covers a file: the filter takes it and its
/// package is not excluded.
pub open spec fn file_included(filter: Filter, f: FileSummaryView) -> bool {
    &&& (filter matches Filter::Services ==> f.has_service)
    &&& !f.excluded
}

/// The first file from `i` on named `name`.
pub open spec fn find_file_from(files: Seq<FileSummaryView>, name: Seq<char>, i: int) -> Option<int>
    decreases files.len() - i,
{
    if i < 0 || i >= files.len() {
        None
    } else if files[i].name == Some(name) {
        Some(i)
    } else {
        find_file_from(files, name, i + 1)
    }
}

/// The error for a requested file that no descriptor names.
pub open spec fn missing_file_error(name: Seq<char>) -> Seq<char> {
    "file_to_generate entry "@ + debug_text(name) + " has no FileDescriptorProto"@
}

/// The packages of the requested files `reqs` from `i` on added to `acc`,
/// or the error for the first requested file that no descriptor names.
pub open spec fn select_from(
    filter: Filter,
    files: Seq<FileSummaryView>,
    reqs: Seq<Seq<char>>,
    i: int,
    acc: Set<Seq<char>>,
) -> Result<Set<Seq<char>>, Seq<char>>
    decreases reqs.len() - i,
{
    if i < 0 || i >= reqs.len() {
        Ok(acc)
    } else {
        match find_file_from(files, reqs[i], 0) {
            None => Err(missing_file_error(reqs[i])),
            Some(k) => {
                let f = files[k];
                let next = if file_included(filter, f) {
                    acc.insert(f.package)
                } else {
                    acc
                };
                select_from(filter, files, reqs, i + 1, next)
            },
        }
    }
}

/// The packages whose module files the tree includes, for the files
/// `reqs` that a request asks for, described by `files`.
pub open spec fn spec_select_packages(
    filter: Filter,
    files: Seq<FileSummaryView>,
    reqs: Seq<Seq<char>>,
) -> Result<Set<Seq<char>>, Seq<char>> {
    select_from(filter, files, reqs, 0, Set::empty())
}

/// Whether `a` comes before `b` in the order of `String`: by the first
/// character in which they differ, and a proper prefix first.
pub open spec fn chars_lt(a: Seq<char>, b: Seq<char>) -> bool
    decreases a.len(),
{
    if a.len() == 0 {
        b.len() > 0
    } else if b.len() == 0 {
        false
    } else if a[0] != b[0] {
        a[0] < b[0]
    } else {
        chars_lt(a.drop_first(), b.drop_first())
    }
}

/// Each of `s` comes before the next.
pub open spec fn strictly_sorted(s: Seq<Seq<char>>) -> bool {
    forall|k: int| 0 <= k < s.len() - 1 ==> #[trigger] chars_lt(s[k], s[k + 1])
}

/// Of two different strings, one comes before the other.
proof fn lemma_chars_lt_total(a: Seq<char>, b: Seq<char>)
    requires
        a != b,
    ensures
        chars_lt(a, b) || chars_lt(b, a),
    decreases a.len(),
{
    if a.len() > 0 && b.len() > 0 && a[0] == b[0] {
        if a.drop_first() == b.drop_first() {
            assert(a =~= seq![a[0]] + a.drop_first());
            assert(b =~= seq![b[0]] + b.drop_first());
        }
        lemma_chars_lt_total(a.drop_first(), b.drop_first());
    } else if a.len() == 0 && b.len() == 0 {
        assert(a =~= b);
    }
}

/// Whether `a` comes before `b`.
fn chars_less(a: &Vec<char>, b: &Vec<char>) -> (r: bool)
    ensures
        r == chars_lt(a@, b@),
{
    let mut i: usize = 0;
    assert(a@.skip(0) =~= a@ && b@.skip(0) =~= b@);
    while i < a.len() && i < b.len()
        invariant
            i <= a@.len(),
            i <= b@.len(),
            chars_lt(a@, b@) == chars_lt(a@.skip(i as int), b@.skip(i as int)),
        decreases a@.len() - i,
    {
        let x = a[i];
        let y = b[i];
        assert(a@.skip(i as int)[0] == x && b@.skip(i as int)[0] == y);
        if x != y {
            return x < y;
        }
        assert(a@.skip(i as int).drop_first() =~= a@.skip(i + 1));
        assert(b@.skip(i as int).drop_first() =~= b@.skip(i + 1));
        i = i + 1;
    }
    i < b.len()
}

/// Where `x` goes among `acc`: after every package that comes before it.
fn insertion_point(acc: &Vec<String>, x: &Vec<char>) -> (p: usize)
    ensures
        p <= acc@.len(),
        forall|k: int| 0 <= k < p ==> chars_lt(#[trigger] acc@[k]@, x@),
        p < acc@.len() ==> !chars_lt(acc@[p as int]@, x@),
{
    let mut p: usize = 0;
    while p < acc.len()
        invariant
            p <= acc@.len(),
            forall|k: int| 0 <= k < p ==> chars_lt(#[trigger] acc@[k]@, x@),
        decreases acc@.len() - p,
    {
        if !chars_less(&str_chars(acc[p].as_str()), x) {
            return p;
        }
        p = p + 1;
    }
    p
}

/// The first file named `name`.
fn find_file(files: &Vec<FileSummary>, name: &Vec<char>) -> (r: Option<usize>)
    ensures
        match r {
            Some(k) => find_file_from(files@.map_values(|f: FileSummary| f@), name@, 0) == Some(
                k as int,
            ),
            None => find_file_from(files@.map_values(|f: FileSummary| f@), name@, 0) is None,
        },
        r matches Some(k) ==> k < files@.len(),
{
    let ghost fs = files@.map_values(|f: FileSummary| f@);
    let mut i: usize = 0;
    while i < files.len()
        invariant
            i <= files@.len(),
            fs == files@.map_values(|f: FileSummary| f@),
            find_file_from(fs, name@, 0) == find_file_from(fs, name@, i as int),
        decreases files@.len() - i,
    {
        let named = match &files[i].name {
            Some(n) => chars_equal(&str_chars(n.as_str()), name),
            None => false,
        };
        assert(fs[i as int] == files@[i as int]@);
        if named {
            return Some(i);
        }
        i = i + 1;
    }
    None
}

/// Whether `acc` holds `p`.
fn holds(acc: &Vec<String>, p: &Vec<char>) -> (r: bool)
    ensures
        r == acc@.map_values(|v: String| v@).contains(p@),
{
    let ghost s = acc@.map_values(|v: String| v@);
    let mut i: usize = 0;
    while i < acc.len()
        invariant
            i <= acc@.len(),
            s == acc@.map_values(|v: String| v@),
            forall|j: int| 0 <= j < i ==> s[j] != p@,
        decreases acc@.len() - i,
    {
        if chars_equal(&str_chars(acc[i].as_str()), p) {
            assert(s[i as int] == p@);
            return true;
        }
        i = i + 1;
    }
    false
}

/// The proto packages whose module files the tree includes: for each file
/// of `to_generate`, the first descriptor of `files` with its name; its
/// package is included when `filter` takes the file and the package is not
/// excluded. Each package comes once, in the order of `String`. A
/// requested file that no descriptor names is an error.
pub fn select_packages(filter: Filter, files: &Vec<FileSummary>, to_generate: &Vec<String>) -> (r:
    Result<Vec<String>, String>)
    ensures
        match r {
            Ok(ps) => {
                &&& spec_select_packages(
                    filter,
                    files@.map_values(|f: FileSummary| f@),
                    to_generate@.map_values(|s: String| s@),
                ) == Ok::<Set<Seq<char>>, Seq<char>>(ps@.map_values(|s: String| s@).to_set())
                &&& strictly_sorted(ps@.map_values(|s: String| s@))
            },
            Err(e) => spec_select_packages(
                filter,
                files@.map_values(|f: FileSummary| f@),
                to_generate@.map_values(|s: String| s@),
            ) == Err::<Set<Seq<char>>, Seq<char>>(e@),
        },
{
    let ghost fs = files@.map_values(|f: FileSummary| f@);
    let ghost reqs = to_generate@.map_values(|s: String| s@);
    let mut acc: Vec<String> = Vec::new();
    assert(acc@.map_values(|v: String| v@).to_set() =~= Set::<Seq<char>>::empty());
    let mut i: usize = 0;
    while i < to_generate.len()
        invariant
            i <= to_generate@.len(),
            fs == files@.map_values(|f: FileSummary| f@),
            reqs == to_generate@.map_values(|s: String| s@),
            strictly_sorted(acc@.map_values(|v: String| v@)),
            spec_select_packages(filter, fs, reqs) == select_from(
                filter,
                fs,
                reqs,
                i as int,
                acc@.map_values(|v: String| v@).to_set(),
            ),
        decreases to_generate@.len() - i,
    {
        let name = str_chars(to_generate[i].as_str());
        assert(reqs[i as int] == name@);
        match find_file(files, &name) {
            None => {
                let e = join3(
                    "file_to_generate entry ",
                    &debug_quoted(&name),
                    " has no FileDescriptorProto",
                );
                return Err(string_from_chars(e));
            },
            Some(k) => {
                let f = &files[k];
                assert(fs[k as int] == f@);
                let pkg = str_chars(f.package.as_str());
                let included = match filter {
                    Filter::Services => f.has_service,
                    Filter::All => true,
                } && !f.excluded;
                if included {
                    let ghost before = acc@.map_values(|v: String| v@);
                    if holds(&acc, &pkg) {
                        assert(before.to_set().insert(pkg@) =~= before.to_set());
                    } else {
                        let at = insertion_point(&acc, &pkg);
                        acc.insert(at, f.package.clone());
                        let ghost after = acc@.map_values(|v: String| v@);
                        assert(after =~= before.insert(at as int, pkg@));
                        assert(after.to_set() =~= before.to_set().insert(pkg@)) by {
                            assert forall|x: Seq<char>| after.to_set().contains(x) implies before.to_set().insert(pkg@).contains(x) by {
                                let k2 = choose|k2: int| 0 <= k2 < after.len() && after[k2] == x;
                                if k2 > at as int {
                                    assert(after[k2] == before[k2 - 1]);
                                } else if k2 < at as int {
                                    assert(after[k2] == before[k2]);
                                }
                            }
                            assert forall|x: Seq<char>| before.to_set().insert(pkg@).contains(x) implies after.to_set().contains(x) by {
                                if x == pkg@ {
                                    assert(after[at as int] == x);
                                } else {
                                    let k2 = choose|k2: int| 0 <= k2 < before.len() && before[k2] == x;
                                    if k2 >= at as int {
                                        assert(after[k2 + 1] == x);
                                    } else {
                                        assert(after[k2] == x);
                                    }
                                }
                            }
                        }
                        assert(strictly_sorted(after)) by {
                            if (at as int) < before.len() {
                                assert(before[at as int] != pkg@);
                                lemma_chars_lt_total(before[at as int], pkg@);
                            }
                            assert forall|k2: int| 0 <= k2 < after.len() - 1 implies #[trigger] chars_lt(
                                after[k2],
                                after[k2 + 1],
                            ) by {
                                if k2 < at - 1 {
                                    assert(chars_lt(before[k2], before[k2 + 1]));
                                } else if k2 == at - 1 {
                                    assert(chars_lt(acc@[k2]@, pkg@));
                                } else if k2 > at {
                                    let j = k2 - 1;
                                    assert(chars_lt(before[j], before[j + 1]));
                                    assert(after[k2] == before[j]);
                                    assert(after[k2 + 1] == before[j + 1]);
                                }
                            }
                        }
                    }
                }
            },
        }
        i = i + 1;
    }
    Ok(acc)
}

} // verus!
