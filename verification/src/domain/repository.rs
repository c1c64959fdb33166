//! Repository references: the accepted spellings, their canonical identity and their
//! place below the repository root.
use vstd::prelude::*;

use crate::address::{parse_url, url_parse, ParsedUrl, UrlParts};
use crate::text::{
    lemma_last_index_bounds, lemma_first_index_bounds,
    after_prefix, ascii_lower, chars, concat, contains_char, contains_seq, count, count_char,
    ends_with, equal, find, first_index, has_char, has_infix, has_prefix, has_suffix, join,
    join_with, keep_non_empty, last_index, non_empty, rfind, slice, split, split_char,
    starts_with, string_of, to_ascii_lowercase, trim_char, trim_end_char, trim_end_matches,
    trim_end_matches_char, trim_end_seq, trim_matches, trim_white, trim_whitespace,
};

verus! {

broadcast use vstd::seq::group_seq_axioms;

#[derive(Debug, Clone, PartialEq, Eq)]
pub enum RepositoryRefError {
    Empty,
    Malformed(String),
}

#[derive(Debug, Clone, PartialEq, Eq)]
pub struct RepositoryRef {
    pub clone_url: String,
    pub host: String,
    pub path: String,
    pub destination_segments: Vec<String>,
    pub wildcard: bool,
}

#[derive(Debug, Clone, PartialEq, Eq)]
pub struct RepositorySummary {
    pub reference: RepositoryRef,
    pub archived: bool,
}

/// The mathematical content of a repository reference.
pub struct RefView {
    pub clone_url: Seq<char>,
    pub host: Seq<char>,
    pub path: Seq<char>,
    pub destination_segments: Seq<Seq<char>>,
    pub wildcard: bool,
}

/// The mathematical content of a reference error.
pub enum RefErrView {
    Empty,
    Malformed(Seq<char>),
}

pub open spec fn strings_view(v: Seq<String>) -> Seq<Seq<char>> {
    v.map_values(|s: String| s@)
}

pub open spec fn vecs_view(v: Seq<Vec<char>>) -> Seq<Seq<char>> {
    v.map_values(|s: Vec<char>| s@)
}

impl View for RepositoryRef {
    type V = RefView;

    open spec fn view(&self) -> RefView {
        RefView {
            clone_url: self.clone_url@,
            host: self.host@,
            path: self.path@,
            destination_segments: strings_view(self.destination_segments@),
            wildcard: self.wildcard,
        }
    }
}

impl View for RepositoryRefError {
    type V = RefErrView;

    open spec fn view(&self) -> RefErrView {
        match self {
            RepositoryRefError::Empty => RefErrView::Empty,
            RepositoryRefError::Malformed(m) => RefErrView::Malformed(m@),
        }
    }
}

pub open spec fn parse_result_view(r: Result<RepositoryRef, RepositoryRefError>) -> Result<RefView, RefErrView> {
    match r {
        Ok(v) => Ok(v@),
        Err(e) => Err(e@),
    }
}

pub open spec fn malformed(m: Seq<char>) -> Result<RefView, RefErrView> {
    Err(RefErrView::Malformed(m))
}

// ---------------------------------------------------------------------------
// Specification of the accepted reference forms
// ---------------------------------------------------------------------------

/// A path without surrounding slashes and without trailing `.git` suffixes.
pub open spec fn clean_path(p: Seq<char>) -> Seq<char> {
    trim_end_seq(trim_char(p, '/'), ".git"@)
}

/// The SCP-style SSH clone URL `git@HOST:PATH.git`.
pub open spec fn default_ssh_url(host: Seq<char>, path: Seq<char>) -> Seq<char> {
    "git@"@ + host + ":"@ + clean_path(path) + ".git"@
}

/// A path segment that names a directory below its parent.
pub open spec fn keep_segment(s: Seq<char>) -> bool {
    s.len() > 0 && s != "."@ && s != ".."@
}

pub open spec fn keep_segments(parts: Seq<Seq<char>>) -> Seq<Seq<char>>
    decreases parts.len(),
{
    if parts.len() == 0 {
        parts
    } else if keep_segment(parts.last()) {
        keep_segments(parts.drop_last()).push(parts.last())
    } else {
        keep_segments(parts.drop_last())
    }
}

/// The names that `Path::components` yields as normal or parent components.
pub open spec fn path_names(parts: Seq<Seq<char>>) -> Seq<Seq<char>>
    decreases parts.len(),
{
    if parts.len() == 0 {
        parts
    } else if parts.last().len() > 0 && parts.last() != "."@ {
        path_names(parts.drop_last()).push(parts.last())
    } else {
        path_names(parts.drop_last())
    }
}

/// `Path::file_stem`: the last component without its final extension.
pub open spec fn file_stem(path: Seq<char>) -> Option<Seq<char>> {
    let names = path_names(split(path, '/'));
    if names.len() == 0 || names.last() == ".."@ {
        None
    } else {
        let name = names.last();
        let k = last_index(name, '.');
        if k <= 0 {
            Some(name)
        } else {
            Some(name.subrange(0, k))
        }
    }
}

pub open spec fn any_nul(segs: Seq<Seq<char>>) -> bool {
    exists|i: int| 0 <= i < segs.len() && has_char(#[trigger] segs[i], '\0')
}

/// The reference for a host and path, with the clone URL that reaches it.
pub open spec fn spec_from_host_path(host: Seq<char>, path: Seq<char>, clone_url: Seq<char>) -> Result<RefView, RefErrView> {
    let p = clean_path(path);
    if p.len() == 0 {
        malformed(clone_url)
    } else {
        let wildcard = has_suffix(p, "/*"@);
        let base = trim_end_char(trim_end_seq(p, "/*"@), '/');
        let segs = keep_segments(split(base, '/'));
        if segs.len() == 0 || any_nul(segs) {
            malformed(clone_url)
        } else {
            Ok(RefView {
                clone_url,
                host: ascii_lower(host),
                path: join(segs, "/"@),
                destination_segments: if host == "github.com"@ || host == "bitbucket.org"@ {
                    segs
                } else if host == "local"@ {
                    seq![segs.last()]
                } else {
                    seq![host] + segs
                },
                wildcard,
            })
        }
    }
}

/// `git@HOST:PATH`.
pub open spec fn spec_parse_scp(input: Seq<char>) -> Result<RefView, RefErrView> {
    let at = last_index(input, '@');
    if at < 0 {
        malformed(input)
    } else {
        let rest = input.subrange(at + 1, input.len() as int);
        let k = first_index(rest, ':');
        if k < 0 {
            malformed(input)
        } else {
            let host = rest.subrange(0, k);
            let path = clean_path(rest.subrange(k + 1, rest.len() as int));
            if host.len() == 0 || path.len() == 0 {
                malformed(input)
            } else {
                spec_from_host_path(host, path, input)
            }
        }
    }
}

/// `HOST/PATH`, cloned over SCP-style SSH.
pub open spec fn spec_parse_host_path(input: Seq<char>) -> Result<RefView, RefErrView> {
    let k = first_index(input, '/');
    if k < 0 {
        malformed(input)
    } else {
        let host = input.subrange(0, k);
        let path = input.subrange(k + 1, input.len() as int);
        if host.len() == 0 || path.len() == 0 {
            malformed(input)
        } else {
            spec_from_host_path(host, path, default_ssh_url(host, path))
        }
    }
}

pub open spec fn some_ref(r: Result<RefView, RefErrView>) -> Result<Option<RefView>, RefErrView> {
    match r {
        Ok(v) => Ok(Some(v)),
        Err(e) => Err(e),
    }
}

/// Browser URLs of GitHub, Bitbucket Cloud and Bitbucket Data Center repositories.
pub open spec fn spec_parse_browser_url(host: Seq<char>, path: Seq<char>) -> Result<Option<RefView>, RefErrView> {
    let pieces = non_empty(split(path, '/'));
    let is_github = host == "github.com"@ || has_suffix(host, "github.com"@);
    let is_bitbucket_cloud = host == "bitbucket.org"@;
    if is_github && pieces.len() == 2 {
        some_ref(spec_from_host_path(host, path, default_ssh_url(host, path)))
    } else if is_bitbucket_cloud && pieces.len() == 2 {
        some_ref(spec_from_host_path(host, path, default_ssh_url(host, path)))
    } else if pieces.len() == 5 && pieces[0] == "projects"@ && pieces[2] == "repos"@ {
        let dc_path = pieces[1] + "/"@ + pieces[3];
        some_ref(spec_from_host_path(host, dc_path, "ssh://git@"@ + host + ":7999/"@ + dc_path + ".git"@))
    } else {
        Ok(None)
    }
}

/// A Bitbucket Data Center browser path `/projects/P/repos/R/…` names repository `P/R`: the
/// project key first, then the repository slug, cloned over SSH on port 7999.
pub proof fn law_data_center_browser_path(host: Seq<char>, path: Seq<char>, project: Seq<char>, slug: Seq<char>, rest: Seq<char>)
    requires
        non_empty(split(path, '/')) == seq!["projects"@, project, "repos"@, slug, rest],
    ensures
        spec_parse_browser_url(host, path) == some_ref(
            spec_from_host_path(host, project + "/"@ + slug, "ssh://git@"@ + host + ":7999/"@ + project + "/"@ + slug + ".git"@),
        ),
        spec_parse_browser_url(host, path) matches Ok(Some(v)) ==> v.clone_url == "ssh://git@"@ + host + ":7999/"@ + project + "/"@
            + slug + ".git"@,
{
    let pieces = non_empty(split(path, '/'));
    assert(pieces.len() == 5);
    assert(pieces[0] == "projects"@ && pieces[1] == project && pieces[2] == "repos"@ && pieces[3] == slug);
    let dc_path = pieces[1] + "/"@ + pieces[3];
    assert("ssh://git@"@ + host + ":7999/"@ + dc_path + ".git"@ =~= "ssh://git@"@ + host + ":7999/"@ + project + "/"@ + slug + ".git"@);
}

proof fn lemma_no_pieces_of_empty(s: Seq<char>)
    requires
        s.len() == 0,
    ensures
        non_empty(split(s, '/')).len() == 0,
{
    let e: Seq<char> = Seq::empty();
    assert(split(s, '/') == seq![e]);
    assert(seq![e].drop_last() =~= Seq::<Seq<char>>::empty());
    assert(non_empty(Seq::<Seq<char>>::empty()) == Seq::<Seq<char>>::empty());
    assert(non_empty(seq![e]) == non_empty(seq![e].drop_last()));
}

/// An HTTPS or SSH URL of a Bitbucket Data Center browser page `/projects/P/repos/R/…` reads
/// as repository `P/R` on its host, cloned over SSH on port 7999.
pub proof fn law_data_center_browser_url(input: Seq<char>, parts: UrlParts, host: Seq<char>, project: Seq<char>, slug: Seq<char>, rest: Seq<char>)
    requires
        supported_transport(parts.0),
        !carries_credentials(parts),
        parts.1 == Some(host),
        !has_suffix(parts.2, ".git"@),
        non_empty(split(clean_path(parts.2), '/')) == seq!["projects"@, project, "repos"@, slug, rest],
    ensures
        spec_reference_from_url(input, parts) == spec_from_host_path(
            host,
            project + "/"@ + slug,
            "ssh://git@"@ + host + ":7999/"@ + project + "/"@ + slug + ".git"@,
        ),
{
    if clean_path(parts.2).len() == 0 {
        lemma_no_pieces_of_empty(clean_path(parts.2));
    }
    law_data_center_browser_path(host, clean_path(parts.2), project, slug, rest);
}

/// `OWNER/REPO` (GitHub shorthand) and `HOST/…/REPO` forms, when they apply.
pub open spec fn spec_parse_short(input: Seq<char>) -> Option<Result<RefView, RefErrView>> {
    if has_infix(input, "://"@) || has_prefix(input, "/"@) {
        None
    } else {
        let k = first_index(input, '/');
        let owner = input.subrange(0, k);
        let repo = input.subrange(k + 1, input.len() as int);
        if k >= 0 && owner.len() > 0 && repo.len() > 0 && !has_char(repo, '/') {
            if has_char(owner, '.') || has_char(owner, '@') {
                Some(spec_parse_host_path(input))
            } else {
                Some(spec_from_host_path(
                    "github.com"@,
                    owner + "/"@ + repo,
                    "git@github.com:"@ + owner + "/"@ + repo + ".git"@,
                ))
            }
        } else if count_char(input, '/') >= 2 {
            Some(spec_parse_host_path(input))
        } else {
            None
        }
    }
}

/// The URL schemes a repository can be cloned over.
pub open spec fn supported_transport(scheme: Seq<char>) -> bool {
    scheme == "https"@ || scheme == "http"@ || scheme == "ssh"@ || scheme == "git"@
}

/// Credentials embedded in a URL: a password, or any user name except over SSH.
pub open spec fn carries_credentials(parts: UrlParts) -> bool {
    parts.4.is_some() || (parts.3.len() > 0 && parts.0 != "ssh"@)
}

/// Any other form is read as an absolute URL. Unsupported transports and embedded
/// credentials are refused without repeating the input.
pub open spec fn spec_parse_url_form(input: Seq<char>) -> Result<RefView, RefErrView> {
    match url_parse(input) {
        Err(e) => malformed(e),
        Ok(parts) => spec_reference_from_url(input, parts),
    }
}

/// The reference an absolute URL names, from the parts `Url::parse` read from `input`.
pub open spec fn spec_reference_from_url(input: Seq<char>, parts: UrlParts) -> Result<RefView, RefErrView> {
    if !supported_transport(parts.0) {
        malformed("unsupported repository transport"@)
    } else if carries_credentials(parts) {
        malformed("repository URL must not contain credentials"@)
    } else { match parts.1 {
        None => malformed(input),
        Some(host) => {
            let path = clean_path(parts.2);
            if path.len() == 0 {
                malformed(input)
            } else if !has_suffix(parts.2, ".git"@) {
                match spec_parse_browser_url(host, path) {
                    Err(e) => Err(e),
                    Ok(Some(r)) => Ok(r),
                    Ok(None) => spec_from_host_path(host, path, input),
                }
            } else {
                spec_from_host_path(host, path, input)
            }
        },
    } }
}

/// A local `file://` reference.
pub open spec fn spec_parse_file(input: Seq<char>) -> Result<RefView, RefErrView> {
    let path = after_prefix(input, "file://"@);
    match file_stem(path) {
        Some(name) if name.len() > 0 => Ok(
            RefView {
                clone_url: input,
                host: "local"@,
                path,
                destination_segments: seq![name],
                wildcard: false,
            },
        ),
        _ => malformed(input),
    }
}

/// What `RepositoryRef::parse` yields for an input.
pub open spec fn spec_parse(raw: Seq<char>) -> Result<RefView, RefErrView> {
    let input = trim_white(raw);
    if input.len() == 0 {
        Err(RefErrView::Empty)
    } else if has_prefix(input, "file://"@) {
        spec_parse_file(input)
    } else if has_prefix(input, "git@"@) {
        spec_parse_scp(input)
    } else {
        match spec_parse_short(input) {
            Some(r) => r,
            None => spec_parse_url_form(input),
        }
    }
}

/// The canonical identity of a reference.
pub open spec fn spec_identity(r: RefView) -> Seq<char> {
    if r.host == "local"@ {
        "file://"@ + r.path
    } else {
        ascii_lower(r.host) + "/"@ + r.path
    }
}

/// `PathBuf::push` of a relative segment.
pub open spec fn path_push(base: Seq<char>, seg: Seq<char>) -> Seq<char> {
    if base.len() == 0 || base.last() == '/' {
        base + seg
    } else {
        base + "/"@ + seg
    }
}

/// `root` with each segment pushed in turn.
pub open spec fn path_join_all(root: Seq<char>, segs: Seq<Seq<char>>) -> Seq<char>
    decreases segs.len(),
{
    if segs.len() == 0 {
        root
    } else {
        path_push(path_join_all(root, segs.drop_last()), segs.last())
    }
}

/// What `normalize_remote` yields for an input.
pub open spec fn spec_normalize_remote(input: Seq<char>) -> Result<Seq<char>, RefErrView> {
    let r = if has_prefix(input, "/"@) {
        spec_parse("file://"@ + input)
    } else {
        spec_parse(input)
    };
    match r {
        Ok(v) => Ok(spec_identity(v)),
        Err(e) => Err(e),
    }
}

// ---------------------------------------------------------------------------
// Executable parser
// ---------------------------------------------------------------------------

fn err_malformed(m: &[char]) -> (r: Result<RepositoryRef, RepositoryRefError>)
    ensures
        parse_result_view(r) == malformed(m@),
{
    Err(RepositoryRefError::Malformed(string_of(m)))
}

fn strings_of(v: &Vec<Vec<char>>) -> (r: Vec<String>)
    ensures
        strings_view(r@) == vecs_view(v@),
{
    let mut r: Vec<String> = Vec::new();
    let mut i: usize = 0;
    while i < v.len()
        invariant
            i <= v@.len(),
            strings_view(r@) =~= vecs_view(v@.subrange(0, i as int)),
        decreases v.len() - i,
    {
        let piece = string_of(&v[i]);
        let ghost before = strings_view(r@);
        r.push(piece);
        assert(strings_view(r@) =~= before.push(piece@));
        assert(vecs_view(v@.subrange(0, i + 1)) =~= vecs_view(v@.subrange(0, i as int)).push(v@[i as int]@));
        i += 1;
    }
    assert(v@.subrange(0, v@.len() as int) =~= v@);
    r
}

pub(crate) fn keep_path_segments(parts: &Vec<Vec<char>>) -> (r: Vec<Vec<char>>)
    ensures
        vecs_view(r@) == keep_segments(vecs_view(parts@)),
{
    let ghost views = vecs_view(parts@);
    let dot = chars(".");
    let dotdot = chars("..");
    let mut r: Vec<Vec<char>> = Vec::new();
    let mut i: usize = 0;
    while i < parts.len()
        invariant
            i <= parts@.len(),
            views == vecs_view(parts@),
            dot@ == "."@,
            dotdot@ == ".."@,
            vecs_view(r@) == keep_segments(views.subrange(0, i as int)),
        decreases parts.len() - i,
    {
        assert(views.subrange(0, i + 1).drop_last() =~= views.subrange(0, i as int));
        assert(views.subrange(0, i + 1).last() == parts@[i as int]@);
        let keep = parts[i].len() > 0 && !equal(&parts[i], &dot) && !equal(&parts[i], &dotdot);
        if keep {
            let ghost before = vecs_view(r@);
            let piece = slice(&parts[i], 0, parts[i].len());
            assert(piece@ =~= parts@[i as int]@);
            r.push(piece);
            assert(vecs_view(r@) =~= before.push(piece@));
        }
        i += 1;
    }
    assert(views.subrange(0, parts@.len() as int) =~= views);
    r
}

pub(crate) fn names_of(parts: &Vec<Vec<char>>) -> (r: Vec<Vec<char>>)
    ensures
        vecs_view(r@) == path_names(vecs_view(parts@)),
{
    let ghost views = vecs_view(parts@);
    let dot = chars(".");
    let mut r: Vec<Vec<char>> = Vec::new();
    let mut i: usize = 0;
    while i < parts.len()
        invariant
            i <= parts@.len(),
            views == vecs_view(parts@),
            dot@ == "."@,
            vecs_view(r@) == path_names(views.subrange(0, i as int)),
        decreases parts.len() - i,
    {
        assert(views.subrange(0, i + 1).drop_last() =~= views.subrange(0, i as int));
        assert(views.subrange(0, i + 1).last() == parts@[i as int]@);
        let keep = parts[i].len() > 0 && !equal(&parts[i], &dot);
        if keep {
            let ghost before = vecs_view(r@);
            let piece = slice(&parts[i], 0, parts[i].len());
            assert(piece@ =~= parts@[i as int]@);
            r.push(piece);
            assert(vecs_view(r@) =~= before.push(piece@));
        }
        i += 1;
    }
    assert(views.subrange(0, parts@.len() as int) =~= views);
    r
}

fn stem_of(path: &[char]) -> (r: Option<Vec<char>>)
    ensures
        match r {
            Some(v) => file_stem(path@) == Some(v@),
            None => file_stem(path@).is_none(),
        },
{
    let pieces = split_char(path, '/');
    let names = names_of(&pieces);
    if names.len() == 0 {
        return None;
    }
    let name = &names[names.len() - 1];
    if equal(name, &chars("..")) {
        return None;
    }
    let found = rfind(name, '.');
    proof {
        lemma_last_index_bounds(name@, '.');
    }
    match found {
        Some(k) if k > 0 => Some(slice(name, 0, k)),
        _ => Some(slice(name, 0, name.len())),
    }
}

fn clean(p: &[char]) -> (r: Vec<char>)
    ensures
        r@ == clean_path(p@),
{
    let t = trim_matches(p, '/');
    proof {
        reveal_strlit(".git");
    }
    trim_end_matches(&t, &chars(".git"))
}

fn ssh_default(host: &[char], path: &[char]) -> (r: Vec<char>)
    ensures
        r@ == default_ssh_url(host@, path@),
{
    let a = concat(&chars("git@"), host);
    let b = concat(&a, &chars(":"));
    let c = concat(&b, &clean(path));
    concat(&c, &chars(".git"))
}

fn copy_all(v: &Vec<Vec<char>>) -> (r: Vec<Vec<char>>)
    ensures
        vecs_view(r@) == vecs_view(v@),
{
    let mut r: Vec<Vec<char>> = Vec::new();
    let mut i: usize = 0;
    while i < v.len()
        invariant
            i <= v@.len(),
            vecs_view(r@) =~= vecs_view(v@).subrange(0, i as int),
        decreases v.len() - i,
    {
        let piece = slice(&v[i], 0, v[i].len());
        assert(piece@ =~= v@[i as int]@);
        let ghost before = vecs_view(r@);
        r.push(piece);
        assert(vecs_view(r@) =~= before.push(piece@));
        i += 1;
    }
    assert(vecs_view(v@).subrange(0, v@.len() as int) =~= vecs_view(v@));
    r
}

fn has_nul(segs: &Vec<Vec<char>>) -> (r: bool)
    ensures
        r == any_nul(vecs_view(segs@)),
{
    let mut i: usize = 0;
    while i < segs.len()
        invariant
            i <= segs@.len(),
            forall|j: int| 0 <= j < i ==> !has_char(#[trigger] vecs_view(segs@)[j], '\0'),
        decreases segs.len() - i,
    {
        if contains_char(&segs[i], '\0') {
            assert(has_char(vecs_view(segs@)[i as int], '\0'));
            return true;
        }
        i += 1;
    }
    false
}

fn from_host_path(host: &[char], path: &[char], clone_url: &[char]) -> (r: Result<RepositoryRef, RepositoryRefError>)
    ensures
        parse_result_view(r) == spec_from_host_path(host@, path@, clone_url@),
{
    let p = clean(path);
    if p.len() == 0 {
        return err_malformed(clone_url);
    }
    let star = chars("/*");
    proof {
        reveal_strlit("/*");
    }
    let wildcard = ends_with(&p, &star);
    let base = trim_end_matches(&p, &star);
    let base = trim_end_matches_char(&base, '/');
    let pieces = split_char(&base, '/');
    let segs = keep_path_segments(&pieces);
    if segs.len() == 0 || has_nul(&segs) {
        return err_malformed(clone_url);
    }
    let destination: Vec<Vec<char>> = if equal(host, &chars("github.com")) || equal(host, &chars("bitbucket.org")) {
        copy_all(&segs)
    } else if equal(host, &chars("local")) {
        let last = slice(&segs[segs.len() - 1], 0, segs[segs.len() - 1].len());
        assert(last@ =~= vecs_view(segs@).last());
        let mut d: Vec<Vec<char>> = Vec::new();
        d.push(last);
        assert(vecs_view(d@) =~= seq![vecs_view(segs@).last()]);
        d
    } else {
        let mut d: Vec<Vec<char>> = Vec::new();
        let h = slice(host, 0, host.len());
        assert(h@ =~= host@);
        d.push(h);
        let mut i: usize = 0;
        assert(vecs_view(d@) =~= seq![host@] + vecs_view(segs@).subrange(0, 0));
        while i < segs.len()
            invariant
                i <= segs@.len(),
                vecs_view(d@) =~= seq![host@] + vecs_view(segs@).subrange(0, i as int),
            decreases segs.len() - i,
        {
            let piece = slice(&segs[i], 0, segs[i].len());
            assert(piece@ =~= segs@[i as int]@);
            let ghost before = vecs_view(d@);
            d.push(piece);
            assert(vecs_view(d@) =~= before.push(piece@));
            i += 1;
        }
        assert(vecs_view(segs@).subrange(0, segs@.len() as int) =~= vecs_view(segs@));
        d
    };
    let joined = join_with(&segs, &chars("/"));
    Ok(RepositoryRef {
        clone_url: string_of(clone_url),
        host: string_of(&to_ascii_lowercase(host)),
        path: string_of(&joined),
        destination_segments: strings_of(&destination),
        wildcard,
    })
}


fn parse_scp(input: &[char]) -> (r: Result<RepositoryRef, RepositoryRefError>)
    ensures
        parse_result_view(r) == spec_parse_scp(input@),
{
    let at = match rfind(input, '@') {
        Some(at) => at,
        None => return err_malformed(input),
    };
    proof {
        lemma_last_index_bounds(input@, '@');
    }
    let n = input.len();
    assert(at < n);
    let rest = slice(input, at + 1, n);
    let k = match find(&rest, ':') {
        Some(k) => k,
        None => return err_malformed(input),
    };
    proof {
        lemma_first_index_bounds(rest@, ':');
    }
    let host = slice(&rest, 0, k);
    let path = clean(&slice(&rest, k + 1, rest.len()));
    if host.len() == 0 || path.len() == 0 {
        return err_malformed(input);
    }
    from_host_path(&host, &path, input)
}

fn parse_host_path(input: &[char]) -> (r: Result<RepositoryRef, RepositoryRefError>)
    ensures
        parse_result_view(r) == spec_parse_host_path(input@),
{
    let k = match find(input, '/') {
        Some(k) => k,
        None => return err_malformed(input),
    };
    proof {
        lemma_first_index_bounds(input@, '/');
    }
    let n = input.len();
    assert(k < n);
    let host = slice(input, 0, k);
    let path = slice(input, k + 1, n);
    if host.len() == 0 || path.len() == 0 {
        return err_malformed(input);
    }
    let clone_url = ssh_default(&host, &path);
    from_host_path(&host, &path, &clone_url)
}

fn wrap_some(r: Result<RepositoryRef, RepositoryRefError>) -> (o: Result<Option<RepositoryRef>, RepositoryRefError>)
    ensures
        match o {
            Ok(Some(v)) => some_ref(parse_result_view(r)) == Ok::<Option<RefView>, RefErrView>(Some(v@)),
            Ok(None) => false,
            Err(e) => some_ref(parse_result_view(r)) == Err::<Option<RefView>, RefErrView>(e@),
        },
{
    match r {
        Ok(v) => Ok(Some(v)),
        Err(e) => Err(e),
    }
}

fn parse_browser_url(host: &[char], path: &[char]) -> (r: Result<Option<RepositoryRef>, RepositoryRefError>)
    ensures
        match r {
            Ok(Some(v)) => spec_parse_browser_url(host@, path@) == Ok::<Option<RefView>, RefErrView>(Some(v@)),
            Ok(None) => spec_parse_browser_url(host@, path@) == Ok::<Option<RefView>, RefErrView>(None),
            Err(e) => spec_parse_browser_url(host@, path@) == Err::<Option<RefView>, RefErrView>(e@),
        },
{
    let pieces = keep_non_empty(&split_char(path, '/'));
    let github = chars("github.com");
    let is_github = equal(host, &github) || ends_with(host, &github);
    let is_bitbucket_cloud = equal(host, &chars("bitbucket.org"));
    if is_github && pieces.len() == 2 {
        return wrap_some(from_host_path(host, path, &ssh_default(host, path)));
    }
    if is_bitbucket_cloud && pieces.len() == 2 {
        return wrap_some(from_host_path(host, path, &ssh_default(host, path)));
    }
    if pieces.len() == 5 && equal(&pieces[0], &chars("projects")) && equal(&pieces[2], &chars("repos")) {
        let dc_path = concat(&concat(&pieces[1], &chars("/")), &pieces[3]);
        let ssh = concat(&concat(&concat(&concat(&chars("ssh://git@"), host), &chars(":7999/")), &dc_path), &chars(".git"));
        return wrap_some(from_host_path(host, &dc_path, &ssh));
    }
    Ok(None)
}

fn parse_short(input: &[char]) -> (r: Option<Result<RepositoryRef, RepositoryRefError>>)
    ensures
        match r {
            Some(x) => spec_parse_short(input@) == Some(parse_result_view(x)),
            None => spec_parse_short(input@).is_none(),
        },
{
    if contains_seq(input, &chars("://")) || starts_with(input, &chars("/")) {
        return None;
    }
    let found = find(input, '/');
    proof {
        lemma_first_index_bounds(input@, '/');
    }
    if let Some(k) = found {
        let n = input.len();
        assert(k < n);
        let owner = slice(input, 0, k);
        let repo = slice(input, k + 1, n);
        if owner.len() > 0 && repo.len() > 0 && !contains_char(&repo, '/') {
            if contains_char(&owner, '.') || contains_char(&owner, '@') {
                return Some(parse_host_path(input));
            }
            let path = concat(&concat(&owner, &chars("/")), &repo);
            let clone_url = concat(&concat(&concat(&concat(&chars("git@github.com:"), &owner), &chars("/")), &repo), &chars(".git"));
            return Some(from_host_path(&chars("github.com"), &path, &clone_url));
        }
    }
    if count(input, '/') >= 2 {
        return Some(parse_host_path(input));
    }
    None
}

fn parse_url_form(input: &[char]) -> (r: Result<RepositoryRef, RepositoryRefError>)
    ensures
        parse_result_view(r) == spec_parse_url_form(input@),
{
    let text = string_of(input);
    match parse_url(text.as_str()) {
        Ok(url) => reference_from_url(input, &url),
        Err(error) => err_malformed(&chars(error.as_str())),
    }
}

/// The reference an absolute URL names, from what `Url::parse` read from `input`.
pub fn reference_from_url(input: &[char], url: &ParsedUrl) -> (r: Result<RepositoryRef, RepositoryRefError>)
    ensures
        parse_result_view(r) == spec_reference_from_url(input@, url.parts()),
{
    let scheme = chars(url.scheme.as_str());
    if !(equal(&scheme, &chars("https")) || equal(&scheme, &chars("http")) || equal(&scheme, &chars("ssh"))
        || equal(&scheme, &chars("git"))) {
        return err_malformed(&chars("unsupported repository transport"));
    }
    if url.password.is_some() || (url.username.unicode_len() > 0 && !equal(&scheme, &chars("ssh"))) {
        return err_malformed(&chars("repository URL must not contain credentials"));
    }
    let host = match &url.host {
        Some(host) => chars(host.as_str()),
        None => return err_malformed(input),
    };
    let url_path = chars(url.path.as_str());
    let path = clean(&url_path);
    if path.len() == 0 {
        return err_malformed(input);
    }
    if !ends_with(&url_path, &chars(".git")) {
        match parse_browser_url(&host, &path) {
            Err(e) => return Err(e),
            Ok(Some(r)) => return Ok(r),
            Ok(None) => {},
        }
    }
    from_host_path(&host, &path, input)
}

fn parse_file(input: &[char]) -> (r: Result<RepositoryRef, RepositoryRefError>)
    requires
        has_prefix(input@, "file://"@),
    ensures
        parse_result_view(r) == spec_parse_file(input@),
{
    let prefix = chars("file://");
    let path = slice(input, prefix.len(), input.len());
    match stem_of(&path) {
        Some(name) if name.len() > 0 => {
            let mut segments: Vec<String> = Vec::new();
            segments.push(string_of(&name));
            let r = RepositoryRef {
                clone_url: string_of(input),
                host: string_of(&chars("local")),
                path: string_of(&path),
                destination_segments: segments,
                wildcard: false,
            };
            assert(r@.destination_segments =~= seq![name@]);
            Ok(r)
        },
        _ => err_malformed(input),
    }
}

impl RepositoryRef {
    /// Reads a repository reference in any accepted form.
    pub fn parse(input: &str) -> (r: Result<RepositoryRef, RepositoryRefError>)
        ensures
            parse_result_view(r) == spec_parse(input@),
    {
        let input = trim_whitespace(&chars(input));
        if input.len() == 0 {
            return Err(RepositoryRefError::Empty);
        }
        if starts_with(&input, &chars("file://")) {
            return parse_file(&input);
        }
        if starts_with(&input, &chars("git@")) {
            return parse_scp(&input);
        }
        match parse_short(&input) {
            Some(r) => r,
            None => parse_url_form(&input),
        }
    }

    /// The reference's place below `root`.
    pub fn destination(&self, root: &str) -> (r: String)
        ensures
            r@ == path_join_all(root@, self@.destination_segments),
    {
        let mut path = chars(root);
        let mut i: usize = 0;
        while i < self.destination_segments.len()
            invariant
                i <= self.destination_segments@.len(),
                path@ == path_join_all(root@, self@.destination_segments.subrange(0, i as int)),
            decreases self.destination_segments.len() - i,
        {
            assert(self@.destination_segments.subrange(0, i + 1).drop_last() =~= self@.destination_segments.subrange(0, i as int));
            path = push_path(&path, &chars(self.destination_segments[i].as_str()));
            i += 1;
        }
        assert(self@.destination_segments.subrange(0, self@.destination_segments.len() as int) =~= self@.destination_segments);
        string_of(&path)
    }

    /// The canonical identity: `file://PATH` for local references, `host/path` otherwise.
    pub fn identity(&self) -> (r: String)
        ensures
            r@ == spec_identity(self@),
    {
        let host = chars(self.host.as_str());
        let path = chars(self.path.as_str());
        if equal(&host, &chars("local")) {
            return string_of(&concat(&chars("file://"), &path));
        }
        string_of(&concat(&concat(&to_ascii_lowercase(&host), &chars("/")), &path))
    }

    /// Whether the reference ends in the wildcard `/*`.
    pub fn is_wildcard(&self) -> (r: bool)
        ensures
            r == self.wildcard,
    {
        self.wildcard
    }
}

/// `PathBuf::push` of a relative segment.
pub fn push_path(base: &[char], seg: &[char]) -> (r: Vec<char>)
    ensures
        r@ == path_push(base@, seg@),
{
    if base.len() == 0 || base[base.len() - 1] == '/' {
        concat(base, seg)
    } else {
        concat(&concat(base, &chars("/")), seg)
    }
}

/// The canonical identity of a remote URL, reading an absolute path as a local reference.
pub fn normalize_remote(input: &str) -> (r: Result<String, RepositoryRefError>)
    ensures
        match r {
            Ok(v) => spec_normalize_remote(input@) == Ok::<Seq<char>, RefErrView>(v@),
            Err(e) => spec_normalize_remote(input@) == Err::<Seq<char>, RefErrView>(e@),
        },
{
    let raw = chars(input);
    let parsed = if starts_with(&raw, &chars("/")) {
        let local = string_of(&concat(&chars("file://"), &raw));
        RepositoryRef::parse(local.as_str())
    } else {
        RepositoryRef::parse(input)
    };
    match parsed {
        Ok(reference) => Ok(reference.identity()),
        Err(e) => Err(e),
    }
}


/// The text of a reference error.
pub open spec fn ref_error_text(e: RefErrView) -> Seq<char> {
    match e {
        RefErrView::Empty => "repository reference is empty"@,
        RefErrView::Malformed(m) => "repository reference is malformed: "@ + m,
    }
}

impl RepositoryRefError {
    /// The error's text.
    pub fn message(&self) -> (r: String)
        ensures
            r@ == ref_error_text(self@),
    {
        match self {
            RepositoryRefError::Empty => string_of(&chars("repository reference is empty")),
            RepositoryRefError::Malformed(m) => string_of(
                &concat(&chars("repository reference is malformed: "), &chars(m.as_str())),
            ),
        }
    }
}

/// Parse failures that are refused outright rather than reported per repository: a URL over
/// an unsupported transport, or one that carries credentials.
pub open spec fn policy_refusal(e: RefErrView) -> bool {
    e == RefErrView::Malformed("unsupported repository transport"@) || e == RefErrView::Malformed(
        "repository URL must not contain credentials"@,
    )
}

/// A reference that must not be acted on at all (an ordinary malformed one may be, and
/// fails on its own).
pub open spec fn reference_unsafe(raw: Seq<char>) -> bool {
    spec_parse(raw) matches Err(e) && policy_refusal(e)
}

/// Refuses the references that must not be acted on at all, with the parser's reason.
pub fn validate_reference_safety(reference: &str) -> (r: Result<(), RepositoryRefError>)
    ensures
        match r {
            Ok(()) => !reference_unsafe(reference@),
            Err(e) => reference_unsafe(reference@) && spec_parse(reference@) == Err::<RefView, RefErrView>(e@),
        },
{
    match RepositoryRef::parse(reference) {
        Ok(_) => Ok(()),
        Err(e) => {
            let refused = match &e {
                RepositoryRefError::Malformed(m) => {
                    let text = chars(m.as_str());
                    equal(&text, &chars("unsupported repository transport")) || equal(&text, &chars("repository URL must not contain credentials"))
                },
                RepositoryRefError::Empty => false,
            };
            if refused {
                Err(e)
            } else {
                Ok(())
            }
        },
    }
}

} // verus!
