//! Data shapes of the hosting service's REST and webhook interfaces, and
//! the parsing of the version-control tool's file listings.

use vstd::prelude::*;

use vstd::string::{StrSliceExecFns, StringExecFns};
use vstd::utf8::{decode_utf8, valid_utf8};

use crate::strings::bytes_to_string;

verus! {

/// An action reported for a check suite.
#[derive(Clone, Copy, Debug, PartialEq, Eq, Structural)]
pub enum CheckSuiteAction {
    /// A check suite was requested (when code is pushed).
    Requested,
    /// A check suite was re-requested (re-running on code pushed earlier).
    Rerequested,
    /// A check suite has finished running.
    Completed,
}

/// An action reported for a check run.
#[derive(Clone, Copy, Debug, PartialEq, Eq, Structural)]
pub enum CheckRunAction {
    Created,
    RequestedAction,
    Rerequested,
    Completed,
}

/// The identifier of a check run.
#[derive(Clone, Copy, Debug, PartialEq, Eq, Structural)]
pub struct CheckRunId(pub u64);

/// A check run: its identifier and name.
#[derive(Debug)]
pub struct CheckRun {
    pub id: CheckRunId,
    pub name: String,
}

/// What a completed check run reports: a title, a summary, and the
/// annotations.
#[derive(Debug)]
pub struct CheckRunOutput {
    pub title: String,
    pub summary: String,
    pub annotations: Vec<crate::annotation::Annotation>,
}

/// An authenticated app installation.
#[derive(Clone, Copy, Debug, PartialEq, Eq, Structural)]
pub struct Installation {
    pub id: u64,
}

/// Anything that identifies an app installation.
pub trait AsInstallation {
    /// The installation's identifier.
    spec fn spec_id(&self) -> u64;

    /// The installation's identifier.
    fn id(&self) -> (r: u64)
        ensures
            r == self.spec_id(),
    ;
}

impl AsInstallation for Installation {
    open spec fn spec_id(&self) -> u64 {
        self.id
    }

    fn id(&self) -> (r: u64) {
        self.id
    }
}

/// Authentication using a signed app token.
#[derive(Debug)]
pub struct AuthJwt(pub String);

/// Authentication using an installation token, scoped to an organization or
/// set of repositories.
#[derive(Debug)]
pub struct AuthInstallation(pub String);

/// The payload of an installation event.
#[derive(Debug)]
pub struct InstallationPayload {
    pub installation: Installation,
}

/// The payload of a check-suite event.
#[derive(Debug)]
pub struct CheckSuitePayload {
    pub action: CheckSuiteAction,
    pub installation: Installation,
    pub repository: Repository,
}

/// The payload of a check-run event.
#[derive(Debug)]
pub struct CheckRunPayload {
    pub installation: Installation,
    pub action: CheckRunAction,
    pub repository: Repository,
    pub check_run: CheckRun,
}

/// A webhook payload of any supported event type.
#[derive(Debug)]
pub enum HookPayload {
    Installation(InstallationPayload),
    CheckSuite(CheckSuitePayload),
    CheckRun(CheckRunPayload),
}

impl HookPayload {
    /// The installation the payload addresses.
    pub open spec fn spec_installation(self) -> Installation {
        match self {
            HookPayload::CheckSuite(cs) => cs.installation,
            HookPayload::Installation(i) => i.installation,
            HookPayload::CheckRun(cr) => cr.installation,
        }
    }

    /// The installation the payload addresses.
    pub fn installation(&self) -> (r: &Installation)
        ensures
            *r == self.spec_installation(),
    {
        match self {
            HookPayload::CheckSuite(cs) => &cs.installation,
            HookPayload::Installation(i) => &i.installation,
            HookPayload::CheckRun(cr) => &cr.installation,
        }
    }
}

/// The account owning a repository.
#[derive(Debug)]
pub struct OwnerId(pub String);

/// The name of a repository below its owner.
#[derive(Debug)]
pub struct RepoId(pub String);

/// The index of the first `/` in a name, or its length if there is none.
pub open spec fn slash_at(s: Seq<char>) -> nat
    decreases s.len(),
{
    if s.len() == 0 {
        0
    } else if s[0] == '/' {
        0
    } else {
        1 + slash_at(s.drop_first())
    }
}

/// The first `/` splits a full name into owner and repository name.
pub proof fn lemma_slash_at(s: Seq<char>)
    ensures
        slash_at(s) <= s.len(),
        slash_at(s) < s.len() ==> s[slash_at(s) as int] == '/',
        forall|j: int| 0 <= j < slash_at(s) ==> s[j] != '/',
    decreases s.len(),
{
    if s.len() > 0 && s[0] != '/' {
        lemma_slash_at(s.drop_first());
        assert forall|j: int| 0 <= j < slash_at(s) implies s[j] != '/' by {
            if j > 0 {
                assert(s.drop_first()[j - 1] == s[j]);
            }
        }
    }
}

/// A repository, addressed by its `owner/name` full name.
#[derive(Debug)]
pub struct Repository {
    full_name: String,
}

impl Repository {
    /// The full `owner/name` form.
    pub closed spec fn spec_full_name(self) -> Seq<char> {
        self.full_name@
    }

    /// Accept a full repository name: it must contain a `/` separating the
    /// owner from the repository's own name.
    pub fn new(name: &str) -> (r: Option<Repository>)
        ensures
            match r {
                Some(repo) => repo.spec_full_name() == name@ && slash_at(name@) < name@.len(),
                None => slash_at(name@) >= name@.len(),
            },
    {
        let n = name.unicode_len();
        let mut i: usize = 0;
        proof {
            lemma_slash_at(name@);
        }
        while i < n
            invariant
                i <= n == name@.len(),
                forall|j: int| 0 <= j < i ==> name@[j] != '/',
                slash_at(name@) <= name@.len(),
                slash_at(name@) < name@.len() ==> name@[slash_at(name@) as int] == '/',
                forall|j: int| 0 <= j < slash_at(name@) ==> name@[j] != '/',
            decreases n - i,
        {
            if name.get_char(i) == '/' {
                proof {
                    assert(slash_at(name@) <= i);
                }
                return Some(Repository { full_name: name.to_owned() });
            }
            proof {
                if slash_at(name@) == i {
                    assert(false);
                }
            }
            i += 1;
        }
        None
    }

    /// The owner: everything before the first `/`.
    pub fn owner(&self) -> (r: OwnerId)
        requires
            slash_at(self.spec_full_name()) < self.spec_full_name().len(),
        ensures
            r.0@ == self.spec_full_name().take(slash_at(self.spec_full_name()) as int),
    {
        let i = self.find_slash();
        OwnerId(String::from_str(self.full_name.as_str().substring_char(0, i)))
    }

    /// The repository's own name: everything after the first `/`.
    pub fn name(&self) -> (r: RepoId)
        requires
            slash_at(self.spec_full_name()) < self.spec_full_name().len(),
        ensures
            r.0@ == self.spec_full_name().skip(slash_at(self.spec_full_name()) as int + 1),
    {
        let n = self.full_name.as_str().unicode_len();
        let i = self.find_slash();
        let r = RepoId(String::from_str(self.full_name.as_str().substring_char(i + 1, n)));
        proof {
            assert(r.0@ =~= self.spec_full_name().skip(slash_at(self.spec_full_name()) as int + 1));
        }
        r
    }

    /// Locate the first `/`.
    fn find_slash(&self) -> (i: usize)
        requires
            slash_at(self.spec_full_name()) < self.spec_full_name().len(),
        ensures
            i == slash_at(self.spec_full_name()),
    {
        proof {
            lemma_slash_at(self.full_name@);
        }
        let n = self.full_name.as_str().unicode_len();
        let mut i: usize = 0;
        while i < n
            invariant
                i <= n == self.full_name@.len(),
                forall|j: int| 0 <= j < i ==> self.full_name@[j] != '/',
                slash_at(self.full_name@) < self.full_name@.len(),
                self.full_name@[slash_at(self.full_name@) as int] == '/',
                forall|j: int| 0 <= j < slash_at(self.full_name@) ==> self.full_name@[j] != '/',
            decreases n - i,
        {
            if self.full_name.as_str().get_char(i) == '/' {
                proof {
                    assert(slash_at(self.full_name@) <= i);
                    assert(slash_at(self.full_name@) >= i);
                }
                return i;
            }
            proof {
                if slash_at(self.full_name@) == i {
                    assert(false);
                }
            }
            i += 1;
        }
        proof {
            assert(false);
        }
        0
    }
}

/// A user account.
#[derive(Debug)]
pub struct User {
    pub login: String,
}

/// A commit, by its hash.
#[derive(Debug)]
pub struct Commit {
    pub sha: String,
}

/// A pull request, as delivered in webhook events.
#[derive(Debug)]
pub struct PullRequest {
    pub number: usize,
    pub title: String,
    pub body: String,
    pub user: User,
    pub head: Commit,
}

/// The payload of a pull-request event.
#[derive(Debug)]
pub struct PullRequestEvent {
    pub pull_request: PullRequest,
}

/// An update to apply to a pull request.
#[derive(Debug)]
pub struct PullRequestUpdate {
    pub title: String,
    pub labels: Vec<String>,
    pub body: Option<String>,
}

/// A local clone of the registry repository.
#[derive(Debug)]
pub struct GitRepo {
    dir: String,
}

impl GitRepo {
    /// Address a clone by its working directory.
    pub fn new(dir: String) -> (r: GitRepo)
        ensures
            r.spec_dir() == dir@,
    {
        GitRepo { dir }
    }

    /// The clone's working directory.
    pub closed spec fn spec_dir(self) -> Seq<char> {
        self.dir@
    }

    /// The clone's working directory.
    pub fn dir(&self) -> (r: &str)
        ensures
            r@ == self.spec_dir(),
    {
        self.dir.as_str()
    }
}

/// The index of the first line feed, or past the end if there is none.
pub open spec fn first_nl(s: Seq<char>) -> nat
    decreases s.len(),
{
    if s.len() == 0 {
        0
    } else if s[0] == '\n' {
        0
    } else {
        1 + first_nl(s.drop_first())
    }
}

/// A carriage return just before a line feed is not part of the line.
pub open spec fn strip_cr(l: Seq<char>) -> Seq<char> {
    if l.len() > 0 && l.last() == '\r' {
        l.drop_last()
    } else {
        l
    }
}

/// The lines of a text: split at line feeds, each line stripped of one
/// carriage return before its line feed, the final line ending optional.
pub open spec fn split_lines(s: Seq<char>) -> Seq<Seq<char>>
    decreases s.len(),
{
    if s.len() == 0 {
        Seq::empty()
    } else {
        let i = first_nl(s) as int;
        if i >= s.len() {
            seq![s]
        } else {
            seq![strip_cr(s.take(i))] + split_lines(s.skip(i + 1))
        }
    }
}

/// Relies on `str::lines`: lines are split at line feeds, a carriage return
/// immediately preceding a line feed is not included, and the final line
/// ending is optional.
#[verifier::external_body]
fn str_lines(s: &str) -> (r: Vec<String>)
    ensures
        r.deep_view() == split_lines(s@),
{
    s.lines().map(|l| l.to_owned()).collect()
}

/// An octal digit.
pub open spec fn is_octal(c: char) -> bool {
    48 <= c as u32 <= 55
}

/// The byte a three-digit octal escape denotes.
pub open spec fn octal3(c1: char, c2: char, c3: char) -> u8 {
    (((c1 as u32) - 48) * 64 + ((c2 as u32) - 48) * 8 + ((c3 as u32) - 48)) as u8
}

/// The escaped content of a quoted line is well formed when every
/// backslash starts a three-octal-digit escape denoting one byte, and every
/// plain character is ASCII.
pub open spec fn escapes_wf(s: Seq<char>) -> bool
    decreases s.len(),
{
    if s.len() == 0 {
        true
    } else if s[0] == '\\' {
        &&& s.len() >= 4
        &&& is_octal(s[1])
        &&& is_octal(s[2])
        &&& is_octal(s[3])
        &&& (s[1] as u32) <= 51
        &&& escapes_wf(s.skip(4))
    } else {
        (s[0] as u32) < 128 && escapes_wf(s.skip(1))
    }
}

/// The bytes the escaped content of a quoted line denotes.
pub open spec fn unescape(s: Seq<char>) -> Seq<u8>
    decreases s.len(),
{
    if s.len() == 0 {
        Seq::empty()
    } else if s[0] == '\\' && s.len() >= 4 {
        seq![octal3(s[1], s[2], s[3])] + unescape(s.skip(4))
    } else if s[0] == '\\' {
        Seq::empty()
    } else {
        seq![(s[0] as u8)] + unescape(s.skip(1))
    }
}

/// Whether the version-control tool quoted this line.
pub open spec fn line_quoted(l: Seq<char>) -> bool {
    l.len() >= 1 && l[0] == '"' && l[l.len() - 1] == '"'
}

/// The escaped content of a quoted line: everything between the opening
/// quote and the last two characters.
pub open spec fn quoted_inner(l: Seq<char>) -> Seq<char> {
    l.subrange(1, l.len() - 2)
}

/// A line the parser is prepared for: an unquoted line is taken as is; a
/// quoted one must be long enough to slice, carry well-formed escapes, and
/// denote valid UTF-8.
pub open spec fn line_wf(l: Seq<char>) -> bool {
    line_quoted(l) ==> l.len() >= 3 && escapes_wf(quoted_inner(l)) && valid_utf8(
        unescape(quoted_inner(l)),
    )
}

/// What one listed line denotes: a quoted line is unescaped and decoded,
/// an unquoted one stands for itself.
pub open spec fn parse_line(l: Seq<char>) -> Seq<char> {
    if line_quoted(l) {
        decode_utf8(unescape(quoted_inner(l)))
    } else {
        l
    }
}

/// Every line of a listing is one the parser is prepared for.
pub open spec fn parse_wf(s: Seq<char>) -> bool {
    forall|i: int| 0 <= i < split_lines(s).len() ==> line_wf(#[trigger] split_lines(s)[i])
}

/// Parse the file listing of the version-control tool's tree diff: one path
/// per line, quoted lines unescaped from their octal escapes.
pub fn parse_diff_tree_paths(output: &str) -> (r: Vec<String>)
    requires
        parse_wf(output@),
    ensures
        r.deep_view() == split_lines(output@).map(|i: int, l: Seq<char>| parse_line(l)),
{
    let lines = str_lines(output);
    let ghost all = split_lines(output@);
    let mut out: Vec<String> = Vec::new();
    let mut i: usize = 0;
    while i < lines.len()
        invariant
            i <= lines@.len(),
            lines.deep_view() == all,
            parse_wf(output@),
            all == split_lines(output@),
            out.deep_view() == all.map(|j: int, l: Seq<char>| parse_line(l)).take(i as int),
        decreases lines@.len() - i,
    {
        let l = &lines[i];
        proof {
            assert(l@ == all[i as int]);
            assert(line_wf(all[i as int]));
        }
        let ghost pre = out.deep_view();
        let parsed = parse_one_line(l);
        out.push(parsed);
        proof {
            assert(out.deep_view() =~= pre.push(parse_line(all[i as int])));
            assert(out.deep_view() =~= all.map(|j: int, l2: Seq<char>| parse_line(l2)).take(
                i + 1 as int,
            ));
        }
        i += 1;
    }
    proof {
        let m = all.map(|j: int, l2: Seq<char>| parse_line(l2));
        assert(m.take(m.len() as int) =~= m);
    }
    out
}

/// Parse one listed line.
fn parse_one_line(l: &String) -> (r: String)
    requires
        line_wf(l@),
    ensures
        r@ == parse_line(l@),
{
    let n = l.as_str().unicode_len();
    let quoted = n >= 1 && l.as_str().get_char(0) == '"' && l.as_str().get_char(n - 1) == '"';
    if !quoted {
        return l.clone();
    }
    let end = n - 2;
    let mut bytes: Vec<u8> = Vec::new();
    let mut pos: usize = 1;
    proof {
        assert(quoted_inner(l@).subrange(0, end - 1 as int) =~= l@.subrange(1, end as int));
        assert(l@.subrange(1, end as int) =~= quoted_inner(l@));
    }
    while pos < end
        invariant
            1 <= pos <= end,
            n == l@.len(),
            n >= 3,
            end == n - 2,
            escapes_wf(l@.subrange(pos as int, end as int)),
            unescape(quoted_inner(l@)) == bytes@ + unescape(l@.subrange(pos as int, end as int)),
        decreases end - pos,
    {
        let ghost suffix = l@.subrange(pos as int, end as int);
        let c = l.as_str().get_char(pos);
        proof {
            assert(suffix[0] == l@[pos as int]);
        }
        if c == '\\' {
            proof {
                assert(suffix.len() >= 4);
                assert(suffix[1] == l@[pos + 1 as int]);
                assert(suffix[2] == l@[pos + 2 as int]);
                assert(suffix[3] == l@[pos + 3 as int]);
            }
            let d1 = l.as_str().get_char(pos + 1);
            let d2 = l.as_str().get_char(pos + 2);
            let d3 = l.as_str().get_char(pos + 3);
            let v: u32 = ((d1 as u32) - 48) * 64 + ((d2 as u32) - 48) * 8 + ((d3 as u32) - 48);
            bytes.push(v as u8);
            proof {
                assert(suffix.skip(4) =~= l@.subrange(pos + 4 as int, end as int));
                assert(unescape(suffix) == seq![octal3(suffix[1], suffix[2], suffix[3])]
                    + unescape(suffix.skip(4)));
            }
            pos += 4;
        } else {
            bytes.push(c as u8);
            proof {
                assert(suffix.skip(1) =~= l@.subrange(pos + 1 as int, end as int));
                assert(unescape(suffix) == seq![(suffix[0] as u8)] + unescape(suffix.skip(1)));
            }
            pos += 1;
        }
    }
    proof {
        assert(l@.subrange(pos as int, end as int) =~= Seq::<char>::empty());
        assert(unescape(l@.subrange(pos as int, end as int)) =~= Seq::<u8>::empty());
        assert(bytes@ =~= unescape(quoted_inner(l@)));
    }
    bytes_to_string(bytes).unwrap()
}

} // verus!
