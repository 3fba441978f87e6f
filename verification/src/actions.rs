//! What an authorized execution does, short of touching the system: which
//! operation a request asks for and with which arguments, which HTTP
//! method a fetch uses, how directory listings are ordered, and the
//! evidence hashes recorded for each kind of result.
use vstd::prelude::*;
use vstd::relations::{sorted_by, total_ordering};

use crate::ledger::{hex_encode, hex_lower, sha256, sha256_digest};
use crate::mandate::{text_less, text_lt};
use crate::models::{DirectoryEntry, ExecutePayload, ExecuteRequest, ExecuteResult};
use crate::policy::opt_view;
use crate::text::{append_chars, append_str, decimal, decimal_chars, eq_str, owned, string_from_chars, string_views};
use crate::ledger::{signed_decimal, signed_decimal_chars};

verus! {

broadcast use vstd::string::group_string_axioms;

// ---------------------------------------------------------------------------
// Dispatch
// ---------------------------------------------------------------------------

/// The operation an execution request asks for, with its arguments.
#[derive(Debug, Clone)]
pub enum ExecutionStep {
    FsRead { path: String },
    FsWrite { path: String, content: String, create: bool, append: bool },
    FsList { path: String },
    FsDelete { path: String, recursive: bool },
    CliExec { command: String, args: Vec<String>, cwd: Option<String>, timeout_ms: Option<u64> },
    HttpFetch { url: String },
    EnvRead { keys: Vec<String> },
}

/// Why a request cannot be carried out as asked, if it cannot: an unknown
/// action, or a payload that is missing or of another action.
pub open spec fn plan_refusal(action: Seq<char>, payload: Option<ExecutePayload>) -> Option<Seq<char>> {
    if action == "fs.read"@ || action == "fs.list"@ || action == "http.fetch"@ {
        None
    } else if action == "fs.write"@ {
        match payload {
            None => Some("fs.write requires payload"@),
            Some(ExecutePayload::FileWrite { .. }) => None,
            Some(_) => Some("Invalid payload for fs.write"@),
        }
    } else if action == "fs.delete"@ {
        match payload {
            None => None,
            Some(ExecutePayload::FileDelete { .. }) => None,
            Some(_) => Some("Invalid payload for fs.delete"@),
        }
    } else if action == "cli.exec"@ {
        match payload {
            None => Some("cli.exec requires payload"@),
            Some(ExecutePayload::CliExec { .. }) => None,
            Some(_) => Some("Invalid payload for cli.exec"@),
        }
    } else if action == "env.read"@ {
        match payload {
            None => Some("env.read requires payload"@),
            Some(ExecutePayload::EnvRead { .. }) => None,
            Some(_) => Some("Invalid payload for env.read"@),
        }
    } else {
        Some("Unsupported action: "@ + action)
    }
}

/// The step carries out the request: the operation its action names, on
/// its resource, with the payload's arguments (a delete without payload is
/// not recursive).
pub open spec fn plans(s: ExecutionStep, req: ExecuteRequest) -> bool {
    let a = req.action@;
    match s {
        ExecutionStep::FsRead { path } => a == "fs.read"@ && path@ == req.resource@,
        ExecutionStep::FsList { path } => a == "fs.list"@ && path@ == req.resource@,
        ExecutionStep::HttpFetch { url } => a == "http.fetch"@ && url@ == req.resource@,
        ExecutionStep::FsWrite { path, content, create, append } => a == "fs.write"@ && path@ == req.resource@
            && req.payload == Some(ExecutePayload::FileWrite { content, create, append }),
        ExecutionStep::FsDelete { path, recursive } => a == "fs.delete"@ && path@ == req.resource@ && match req.payload {
            Some(ExecutePayload::FileDelete { recursive: r }) => recursive == r,
            _ => !recursive,
        },
        ExecutionStep::CliExec { command, args, cwd, timeout_ms } => a == "cli.exec"@ && (req.payload matches Some(
            ExecutePayload::CliExec { command: c, args: g, cwd: w, timeout_ms: t },
        ) && command == c && args@ == g@ && cwd == w && timeout_ms == t),
        ExecutionStep::EnvRead { keys } => a == "env.read"@ && (req.payload matches Some(ExecutePayload::EnvRead { keys: k })
            && keys@ == k@),
    }
}

/// A copy of a list of strings.
fn copy_strings(v: &Vec<String>) -> (r: Vec<String>)
    ensures
        r@ == v@,
{
    let mut out: Vec<String> = Vec::new();
    let mut i: usize = 0;
    while i < v.len()
        invariant
            i <= v@.len(),
            out@ =~= v@.subrange(0, i as int),
        decreases v@.len() - i,
    {
        out.push(v[i].clone());
        i = i + 1;
    }
    assert(v@.subrange(0, v@.len() as int) =~= v@);
    out
}

/// A copy of an optional string.
fn copy_opt(o: &Option<String>) -> (r: Option<String>)
    ensures
        r == *o,
{
    match o {
        Some(s) => Some(s.clone()),
        None => None,
    }
}

/// The operation an execution request asks for.
pub fn plan_execution(request: &ExecuteRequest) -> (r: Result<ExecutionStep, String>)
    ensures
        match plan_refusal(request.action@, request.payload) {
            Some(m) => r matches Err(x) && x@ == m,
            None => r matches Ok(s) && plans(s, *request),
        },
{
    let a = crate::text::chars_of(request.action.as_str());
    let path = request.resource.clone();
    if eq_str(a.as_slice(), "fs.read") {
        return Ok(ExecutionStep::FsRead { path });
    }
    if eq_str(a.as_slice(), "fs.list") {
        return Ok(ExecutionStep::FsList { path });
    }
    if eq_str(a.as_slice(), "http.fetch") {
        return Ok(ExecutionStep::HttpFetch { url: path });
    }
    if eq_str(a.as_slice(), "fs.write") {
        return match &request.payload {
            None => Err(owned("fs.write requires payload")),
            Some(ExecutePayload::FileWrite { content, create, append }) => Ok(
                ExecutionStep::FsWrite { path, content: content.clone(), create: *create, append: *append },
            ),
            Some(_) => Err(owned("Invalid payload for fs.write")),
        };
    }
    if eq_str(a.as_slice(), "fs.delete") {
        return match &request.payload {
            None => Ok(ExecutionStep::FsDelete { path, recursive: false }),
            Some(ExecutePayload::FileDelete { recursive }) => Ok(ExecutionStep::FsDelete { path, recursive: *recursive }),
            Some(_) => Err(owned("Invalid payload for fs.delete")),
        };
    }
    if eq_str(a.as_slice(), "cli.exec") {
        return match &request.payload {
            None => Err(owned("cli.exec requires payload")),
            Some(ExecutePayload::CliExec { command, args, cwd, timeout_ms }) => Ok(
                ExecutionStep::CliExec {
                    command: command.clone(),
                    args: copy_strings(args),
                    cwd: copy_opt(cwd),
                    timeout_ms: *timeout_ms,
                },
            ),
            Some(_) => Err(owned("Invalid payload for cli.exec")),
        };
    }
    if eq_str(a.as_slice(), "env.read") {
        return match &request.payload {
            None => Err(owned("env.read requires payload")),
            Some(ExecutePayload::EnvRead { keys }) => Ok(ExecutionStep::EnvRead { keys: copy_strings(keys) }),
            Some(_) => Err(owned("Invalid payload for env.read")),
        };
    }
    let mut m: Vec<char> = Vec::new();
    append_str(&mut m, "Unsupported action: ");
    append_str(&mut m, request.action.as_str());
    Err(string_from_chars(m.as_slice()))
}

/// Writing without `create` is refused when the file does not exist.
pub fn check_write_target(create: bool, exists: bool) -> (r: Result<(), String>)
    ensures
        (!create && !exists) <==> r is Err,
        r matches Err(m) ==> m@ == "File does not exist and create=false"@,
{
    if !create && !exists {
        Err(owned("File does not exist and create=false"))
    } else {
        Ok(())
    }
}

// ---------------------------------------------------------------------------
// HTTP method
// ---------------------------------------------------------------------------

/// The uppercase form of `s` under Unicode case mapping, as
/// `str::to_uppercase` computes it.
pub uninterp spec fn uppercase(s: Seq<char>) -> Seq<char>;

/// `str::to_uppercase`: the Unicode uppercase mapping. Claimed: the result
/// is a function of the text alone.
#[verifier::external_body]
fn to_uppercase(s: &str) -> (r: String)
    ensures
        r@ == uppercase(s@),
{
    s.to_uppercase()
}

/// HTTP methods a fetch may use.
#[derive(Debug, Clone, Copy, PartialEq, Eq, Structural)]
pub enum HttpMethod {
    Get,
    Post,
    Put,
    Delete,
    Patch,
    Head,
}

/// The method named by a text in uppercase, if it is one of the six.
pub open spec fn method_named(u: Seq<char>) -> Option<HttpMethod> {
    if u == "GET"@ {
        Some(HttpMethod::Get)
    } else if u == "POST"@ {
        Some(HttpMethod::Post)
    } else if u == "PUT"@ {
        Some(HttpMethod::Put)
    } else if u == "DELETE"@ {
        Some(HttpMethod::Delete)
    } else if u == "PATCH"@ {
        Some(HttpMethod::Patch)
    } else if u == "HEAD"@ {
        Some(HttpMethod::Head)
    } else {
        None
    }
}

/// The method text of a fetch: its payload's, `GET` without one.
pub open spec fn method_text(payload: Option<ExecutePayload>) -> Seq<char> {
    match payload {
        Some(ExecutePayload::HttpFetch { method, .. }) => method@,
        _ => "GET"@,
    }
}

/// The method of a fetch, in any case; an unknown one is refused.
pub fn http_method(payload: &Option<ExecutePayload>) -> (r: Result<HttpMethod, String>)
    ensures
        match method_named(uppercase(method_text(*payload))) {
            Some(m) => r == Ok::<HttpMethod, String>(m),
            None => r matches Err(x) && x@ == "Unsupported HTTP method: "@ + method_text(*payload),
        },
{
    let method: String = match payload {
        Some(ExecutePayload::HttpFetch { method, .. }) => method.clone(),
        _ => owned("GET"),
    };
    let up = to_uppercase(method.as_str());
    let u = crate::text::chars_of(up.as_str());
    if eq_str(u.as_slice(), "GET") {
        Ok(HttpMethod::Get)
    } else if eq_str(u.as_slice(), "POST") {
        Ok(HttpMethod::Post)
    } else if eq_str(u.as_slice(), "PUT") {
        Ok(HttpMethod::Put)
    } else if eq_str(u.as_slice(), "DELETE") {
        Ok(HttpMethod::Delete)
    } else if eq_str(u.as_slice(), "PATCH") {
        Ok(HttpMethod::Patch)
    } else if eq_str(u.as_slice(), "HEAD") {
        Ok(HttpMethod::Head)
    } else {
        let mut m: Vec<char> = Vec::new();
        append_str(&mut m, "Unsupported HTTP method: ");
        append_str(&mut m, method.as_str());
        Err(string_from_chars(m.as_slice()))
    }
}

// ---------------------------------------------------------------------------
// Evidence
// ---------------------------------------------------------------------------

/// The evidence form of a digest: `sha256:` and its lowercase hex text.
pub open spec fn evidence_of(text: Seq<char>) -> Seq<char> {
    "sha256:"@ + hex_lower(sha256_digest(vstd::utf8::encode_utf8(text)))
}

/// The evidence hash of a text.
fn evidence_hash(text: &Vec<char>) -> (r: String)
    ensures
        r@ == evidence_of(text@),
{
    let s = string_from_chars(text.as_slice());
    let d = sha256(s.as_str().as_bytes());
    let h = hex_encode(d.as_slice());
    let mut out: Vec<char> = Vec::new();
    append_str(&mut out, "sha256:");
    append_str(&mut out, h.as_str());
    string_from_chars(out.as_slice())
}

/// The content hash of a file's text (read or written) or of a fetched
/// body.
pub fn content_hash(content: &str) -> (r: String)
    ensures
        r@ == evidence_of(content@),
{
    let c = crate::text::chars_of(content);
    evidence_hash(&c)
}

/// The evidence of a command run: its command, exit code, output and error
/// output.
pub fn cli_evidence_hash(command: &str, exit_code: i32, stdout: &str, stderr: &str) -> (r: String)
    ensures
        r@ == evidence_of(command@ + ":"@ + signed_decimal(exit_code as int) + ":"@ + stdout@ + ":"@ + stderr@),
{
    let mut t: Vec<char> = Vec::new();
    append_str(&mut t, command);
    append_str(&mut t, ":");
    append_chars(&mut t, signed_decimal_chars(exit_code as i64).as_slice());
    append_str(&mut t, ":");
    append_str(&mut t, stdout);
    append_str(&mut t, ":");
    append_str(&mut t, stderr);
    evidence_hash(&t)
}

/// The evidence of a deletion: the canonical path and how many paths went.
pub fn delete_evidence_hash(canonical_path: &str, paths_removed: usize) -> (r: String)
    ensures
        r@ == evidence_of("deleted:"@ + canonical_path@ + ":"@ + decimal(paths_removed as nat)),
{
    let mut t: Vec<char> = Vec::new();
    append_str(&mut t, "deleted:");
    append_str(&mut t, canonical_path);
    append_str(&mut t, ":");
    append_chars(&mut t, decimal_chars(paths_removed as u64).as_slice());
    evidence_hash(&t)
}

// ---------------------------------------------------------------------------
// Ordering by name
// ---------------------------------------------------------------------------

/// The first position at or after `j` whose text orders after `k`.
pub open spec fn name_point_from(s: Seq<Seq<char>>, k: Seq<char>, j: int) -> int
    decreases s.len() - j,
{
    if j < 0 || j >= s.len() {
        j
    } else if text_lt(k, s[j]) {
        j
    } else {
        name_point_from(s, k, j + 1)
    }
}

/// Lemma: the point lies between `j` and the length.
proof fn lemma_name_point(s: Seq<Seq<char>>, k: Seq<char>, j: int)
    requires
        0 <= j <= s.len(),
    ensures
        j <= name_point_from(s, k, j) <= s.len(),
    decreases s.len() - j,
{
    if j < s.len() && !text_lt(k, s[j]) {
        lemma_name_point(s, k, j + 1);
    }
}

/// Texts ordered (equal texts keep their order): each is inserted after
/// every text that does not order after it.
pub open spec fn sorted_texts(s: Seq<Seq<char>>) -> Seq<Seq<char>>
    decreases s.len(),
{
    if s.len() == 0 {
        s
    } else {
        let r = sorted_texts(s.drop_last());
        r.insert(name_point_from(r, s.last(), 0), s.last())
    }
}

/// Lemma: ordering keeps the number of texts.
proof fn lemma_sorted_texts_len(s: Seq<Seq<char>>)
    ensures
        sorted_texts(s).len() == s.len(),
    decreases s.len(),
{
    if s.len() > 0 {
        lemma_sorted_texts_len(s.drop_last());
        lemma_name_point(sorted_texts(s.drop_last()), s.last(), 0);
    }
}

/// A directory entry as a value.
pub struct EntryView {
    pub name: Seq<char>,
    pub entry_type: Seq<char>,
    pub size: u64,
    pub modified: Option<u64>,
}

/// The view of a directory entry.
pub open spec fn entry_view(e: DirectoryEntry) -> EntryView {
    EntryView { name: e.name@, entry_type: e.entry_type@, size: e.size, modified: e.modified }
}

/// The views of directory entries.
pub open spec fn entry_views(v: Seq<DirectoryEntry>) -> Seq<EntryView> {
    v.map_values(|e: DirectoryEntry| entry_view(e))
}

/// The names of entries.
pub open spec fn entry_names(v: Seq<EntryView>) -> Seq<Seq<char>> {
    v.map_values(|e: EntryView| e.name)
}

/// Entries ordered by name (entries with equal names keep their order).
pub open spec fn sorted_entries(s: Seq<EntryView>) -> Seq<EntryView>
    decreases s.len(),
{
    if s.len() == 0 {
        s
    } else {
        let r = sorted_entries(s.drop_last());
        r.insert(name_point_from(entry_names(r), s.last().name, 0), s.last())
    }
}

/// Where a name goes in a list of entries: after every entry whose name
/// does not order after it.
fn entry_point(v: &Vec<DirectoryEntry>, name: &[char]) -> (r: usize)
    ensures
        r == name_point_from(entry_names(entry_views(v@)), name@, 0),
        r <= v@.len(),
{
    let ghost names = entry_names(entry_views(v@));
    let mut j: usize = 0;
    while j < v.len()
        invariant
            j <= v@.len(),
            names == entry_names(entry_views(v@)),
            name_point_from(names, name@, 0) == name_point_from(names, name@, j as int),
        decreases v@.len() - j,
    {
        let n = crate::text::chars_of(v[j].name.as_str());
        assert(names[j as int] == v@[j as int].name@);
        if text_less(name, n.as_slice()) {
            return j;
        }
        j = j + 1;
    }
    j
}

/// Directory entries ordered by name.
pub fn sort_entries(entries: Vec<DirectoryEntry>) -> (r: Vec<DirectoryEntry>)
    ensures
        entry_views(r@) == sorted_entries(entry_views(entries@)),
{
    let ghost all = entry_views(entries@);
    let count: usize = entries.len();
    let mut rest = entries;
    let mut out: Vec<DirectoryEntry> = Vec::new();
    let mut i: usize = 0;
    let ghost n = all.len();
    assert(all.subrange(0, 0) =~= Seq::<EntryView>::empty());
    assert(entry_views(rest@) =~= all.subrange(0, n as int));
    while rest.len() > 0
        invariant
            i <= n,
            n == all.len(),
            n == count,
            entry_views(rest@) == all.subrange(i as int, n as int),
            entry_views(out@) == sorted_entries(all.subrange(0, i as int)),
        decreases rest@.len(),
    {
        let ghost before_rest = rest@;
        assert(entry_views(rest@).len() == rest@.len());
        assert(i < n);
        let e = rest.remove(0);
        assert(entry_views(before_rest)[0] == entry_view(e));
        assert(rest@ =~= before_rest.subrange(1, before_rest.len() as int));
        assert(entry_views(rest@) =~= entry_views(before_rest).subrange(1, before_rest.len() as int));
        assert(entry_views(rest@) =~= all.subrange(i + 1, n as int));
        assert(all.subrange(0, i + 1).drop_last() =~= all.subrange(0, i as int));
        assert(all.subrange(0, i + 1).last() == entry_view(e));
        let nm = crate::text::chars_of(e.name.as_str());
        let p = entry_point(&out, nm.as_slice());
        let ghost before = out@;
        out.insert(p, e);
        assert(entry_views(out@) =~= entry_views(before).insert(p as int, entry_view(e)));
        i = i + 1;
    }
    assert(all.subrange(0, n as int) =~= all);
    out
}

/// Where a text goes in a list of texts.
fn text_point(v: &Vec<String>, k: &[char]) -> (r: usize)
    ensures
        r == name_point_from(string_views(v@), k@, 0),
        r <= v@.len(),
{
    let mut j: usize = 0;
    while j < v.len()
        invariant
            j <= v@.len(),
            name_point_from(string_views(v@), k@, 0) == name_point_from(string_views(v@), k@, j as int),
        decreases v@.len() - j,
    {
        let n = crate::text::chars_of(v[j].as_str());
        assert(string_views(v@)[j as int] == v@[j as int]@);
        if text_less(k, n.as_slice()) {
            return j;
        }
        j = j + 1;
    }
    j
}

/// Texts ordered.
pub fn sort_texts(texts: &Vec<String>) -> (r: Vec<String>)
    ensures
        string_views(r@) == sorted_texts(string_views(texts@)),
{
    let ghost all = string_views(texts@);
    let mut out: Vec<String> = Vec::new();
    let mut i: usize = 0;
    assert(all.subrange(0, 0) =~= Seq::<Seq<char>>::empty());
    while i < texts.len()
        invariant
            i <= texts@.len(),
            all == string_views(texts@),
            string_views(out@) == sorted_texts(all.subrange(0, i as int)),
        decreases texts@.len() - i,
    {
        assert(all.subrange(0, i + 1).drop_last() =~= all.subrange(0, i as int));
        assert(all.subrange(0, i + 1).last() == texts@[i as int]@);
        let k = crate::text::chars_of(texts[i].as_str());
        let p = text_point(&out, k.as_slice());
        let ghost before = out@;
        out.insert(p, texts[i].clone());
        assert(string_views(out@) =~= string_views(before).insert(p as int, texts@[i as int]@));
        i = i + 1;
    }
    assert(all.subrange(0, all.len() as int) =~= all);
    out
}

/// The evidence text of a listing: `name:type:size` of each entry in turn.
pub open spec fn listing_evidence_text(v: Seq<EntryView>) -> Seq<char>
    decreases v.len(),
{
    if v.len() == 0 {
        Seq::empty()
    } else {
        listing_evidence_text(v.drop_last()) + v.last().name + ":"@ + v.last().entry_type + ":"@ + decimal(
            v.last().size as nat,
        )
    }
}

/// The result of listing a directory: its entries ordered by name, their
/// number, and the evidence hash over the ordered entries.
pub fn fs_list_result(entries: Vec<DirectoryEntry>) -> (r: (ExecuteResult, String))
    ensures
        r.0 matches ExecuteResult::FileList { entries: e, total_entries: n } && entry_views(e@) == sorted_entries(
            entry_views(entries@),
        ) && n == e@.len() && r.1@ == evidence_of(listing_evidence_text(entry_views(e@))),
{
    let sorted = sort_entries(entries);
    let ghost sv = entry_views(sorted@);
    let mut t: Vec<char> = Vec::new();
    let mut i: usize = 0;
    assert(sv.subrange(0, 0) =~= Seq::<EntryView>::empty());
    while i < sorted.len()
        invariant
            i <= sorted@.len(),
            sv == entry_views(sorted@),
            t@ == listing_evidence_text(sv.subrange(0, i as int)),
        decreases sorted@.len() - i,
    {
        assert(sv.subrange(0, i + 1).drop_last() =~= sv.subrange(0, i as int));
        assert(sv.subrange(0, i + 1).last() == entry_view(sorted@[i as int]));
        append_str(&mut t, sorted[i].name.as_str());
        append_str(&mut t, ":");
        append_str(&mut t, sorted[i].entry_type.as_str());
        append_str(&mut t, ":");
        append_chars(&mut t, decimal_chars(sorted[i].size).as_slice());
        i = i + 1;
    }
    assert(sv.subrange(0, sv.len() as int) =~= sv);
    let h = evidence_hash(&t);
    let total = sorted.len();
    (ExecuteResult::FileList { entries: sorted, total_entries: total }, h)
}

/// The evidence text of an environment read: `env:key` for each requested
/// key in order.
pub open spec fn env_evidence_text(keys: Seq<Seq<char>>) -> Seq<char>
    decreases keys.len(),
{
    if keys.len() == 0 {
        Seq::empty()
    } else {
        env_evidence_text(keys.drop_last()) + "env:"@ + keys.last()
    }
}

/// The evidence of an environment read: over the requested keys in order,
/// never over their values.
pub fn env_read_evidence_hash(keys: &Vec<String>) -> (r: String)
    ensures
        r@ == evidence_of(env_evidence_text(sorted_texts(string_views(keys@)))),
{
    let sorted = sort_texts(keys);
    let ghost sv = string_views(sorted@);
    let mut t: Vec<char> = Vec::new();
    let mut i: usize = 0;
    assert(sv.subrange(0, 0) =~= Seq::<Seq<char>>::empty());
    while i < sorted.len()
        invariant
            i <= sorted@.len(),
            sv == string_views(sorted@),
            t@ == env_evidence_text(sv.subrange(0, i as int)),
        decreases sorted@.len() - i,
    {
        assert(sv.subrange(0, i + 1).drop_last() =~= sv.subrange(0, i as int));
        assert(sv.subrange(0, i + 1).last() == sorted@[i as int]@);
        append_str(&mut t, "env:");
        append_str(&mut t, sorted[i].as_str());
        i = i + 1;
    }
    assert(sv.subrange(0, sv.len() as int) =~= sv);
    evidence_hash(&t)
}


// ---------------------------------------------------------------------------
// Order of the texts
// ---------------------------------------------------------------------------

/// Lemma: no text orders before itself.
proof fn lemma_text_lt_irreflexive(a: Seq<char>)
    ensures
        !text_lt(a, a),
    decreases a.len(),
{
    if a.len() > 0 {
        lemma_text_lt_irreflexive(a.drop_first());
    }
}

/// Lemma: two different texts are ordered one way or the other.
proof fn lemma_text_lt_total(a: Seq<char>, b: Seq<char>)
    ensures
        a == b || text_lt(a, b) || text_lt(b, a),
    decreases a.len(),
{
    if a.len() > 0 && b.len() > 0 && a[0] == b[0] {
        lemma_text_lt_total(a.drop_first(), b.drop_first());
        if a.drop_first() == b.drop_first() {
            assert(a =~= seq![a[0]] + a.drop_first());
            assert(b =~= seq![b[0]] + b.drop_first());
        }
    } else if a.len() == 0 && b.len() == 0 {
        assert(a =~= b);
    }
}

/// Lemma: the order is transitive.
proof fn lemma_text_lt_transitive(a: Seq<char>, b: Seq<char>, c: Seq<char>)
    requires
        text_lt(a, b),
        text_lt(b, c),
    ensures
        text_lt(a, c),
    decreases a.len(),
{
    if a.len() > 0 && a[0] == b[0] && b[0] == c[0] {
        lemma_text_lt_transitive(a.drop_first(), b.drop_first(), c.drop_first());
    }
}

/// Lemma: no two texts order before each other.
proof fn lemma_text_lt_asymmetric(a: Seq<char>, b: Seq<char>)
    ensures
        !(text_lt(a, b) && text_lt(b, a)),
{
    if text_lt(a, b) && text_lt(b, a) {
        lemma_text_lt_transitive(a, b, a);
        lemma_text_lt_irreflexive(a);
    }
}

/// Texts in order: each does not order after the next.
pub open spec fn text_leq(a: Seq<char>, b: Seq<char>) -> bool {
    !text_lt(b, a)
}

/// Lemma: `text_leq` is a total order.
proof fn lemma_text_leq_total_ordering()
    ensures
        total_ordering(|a: Seq<char>, b: Seq<char>| text_leq(a, b)),
{
    let leq = |a: Seq<char>, b: Seq<char>| text_leq(a, b);
    assert forall|x: Seq<char>| #[trigger] leq(x, x) by {
        lemma_text_lt_irreflexive(x);
    }
    assert forall|x: Seq<char>, y: Seq<char>| #[trigger] leq(x, y) && #[trigger] leq(y, x) implies x == y by {
        lemma_text_lt_total(x, y);
    }
    assert forall|x: Seq<char>, y: Seq<char>, z: Seq<char>| #[trigger] leq(x, y) && #[trigger] leq(y, z) implies leq(
        x,
        z,
    ) by {
        if text_lt(z, x) {
            lemma_text_lt_total(x, y);
            if x != y {
                if text_lt(x, y) {
                    lemma_text_lt_transitive(z, x, y);
                }
            }
        }
    }
    assert forall|x: Seq<char>, y: Seq<char>| #[trigger] leq(x, y) || #[trigger] leq(y, x) by {
        lemma_text_lt_asymmetric(x, y);
    }
}

/// Lemma: the ordered texts are in order and are the same texts.
proof fn lemma_sorted_texts(s: Seq<Seq<char>>)
    ensures
        sorted_by(sorted_texts(s), |a: Seq<char>, b: Seq<char>| text_leq(a, b)),
        sorted_texts(s).to_multiset() == s.to_multiset(),
    decreases s.len(),
{
    broadcast use vstd::seq_lib::group_to_multiset_ensures;
    let leq = |a: Seq<char>, b: Seq<char>| text_leq(a, b);
    if s.len() == 0 {
    } else {
        lemma_sorted_texts(s.drop_last());
        let r = sorted_texts(s.drop_last());
        let x = s.last();
        lemma_sorted_texts_len(s.drop_last());
        lemma_name_point(r, x, 0);
        let p = name_point_from(r, x, 0);
        lemma_name_point_first(r, x, 0);
        let out = r.insert(p, x);
        assert(out == sorted_texts(s));
        assert forall|i: int, j: int| 0 <= i < j < out.len() implies #[trigger] leq(out[i], out[j]) by {
            if j < p {
                assert(out[i] == r[i] && out[j] == r[j]);
            } else if j == p {
                assert(out[j] == x);
                assert(out[i] == r[i]);
            } else if i < p {
                assert(out[i] == r[i] && out[j] == r[j - 1]);
                if text_lt(r[j - 1], r[i]) {
                    lemma_text_lt_asymmetric(r[i], r[j - 1]);
                    assert(leq(r[i], r[j - 1]));
                }
            } else if i == p {
                assert(out[i] == x && out[j] == r[j - 1]);
                assert(text_lt(x, r[p]));
                if j - 1 == p {
                    lemma_text_lt_irreflexive(r[p]);
                }
                assert(leq(r[p], r[j - 1]));
                if text_lt(r[j - 1], x) {
                    lemma_text_lt_transitive(r[j - 1], x, r[p]);
                }
            } else {
                assert(out[i] == r[i - 1] && out[j] == r[j - 1]);
            }
        }
        assert(out.remove(p) =~= r);
        assert(s.drop_last().push(x) =~= s);
        assert(out.to_multiset().remove(x) == r.to_multiset());
        assert(out.to_multiset().count(x) > 0) by {
            assert(out[p] == x);
            assert(out.contains(x));
        }
        assert(out.to_multiset() =~= r.to_multiset().insert(x));
    }
}

/// Lemma: before the point every text does not order after `k`; at the
/// point (when inside) `k` orders before the text.
proof fn lemma_name_point_first(s: Seq<Seq<char>>, k: Seq<char>, j: int)
    requires
        0 <= j <= s.len(),
    ensures
        forall|i: int| j <= i < name_point_from(s, k, j) ==> !text_lt(k, #[trigger] s[i]),
        name_point_from(s, k, j) < s.len() ==> text_lt(k, s[name_point_from(s, k, j)]),
    decreases s.len() - j,
{
    if j < s.len() && !text_lt(k, s[j]) {
        lemma_name_point_first(s, k, j + 1);
    }
}

/// The evidence of an environment read does not depend on the order in
/// which the keys are requested: keys that are the same texts, in any
/// order, give the same evidence text.
pub proof fn law_env_evidence_ignores_order(a: Seq<Seq<char>>, b: Seq<Seq<char>>)
    requires
        a.to_multiset() == b.to_multiset(),
    ensures
        env_evidence_text(sorted_texts(a)) == env_evidence_text(sorted_texts(b)),
{
    lemma_sorted_texts(a);
    lemma_sorted_texts(b);
    lemma_text_leq_total_ordering();
    vstd::seq_lib::lemma_sorted_unique(sorted_texts(a), sorted_texts(b), |x: Seq<char>, y: Seq<char>| text_leq(x, y));
    assert(sorted_texts(a) == sorted_texts(b));
}

} // verus!
