//! Policy files: format detection (`.yaml` / `.yml` files are YAML, every
//! other file is JSON) and the assembly of the rules a file holds. Reading
//! the file and parsing its text are done at the edge of the application,
//! which hands over each entry of the `rules` array, parsed or not.
use vstd::prelude::*;

use crate::models::PolicyRule;
use crate::paths::{dot, dotdot};
use crate::text::{chars_eq, chars_of, eq_str, slice_chars, split_chars, split_on};

verus! {

broadcast use vstd::string::group_string_axioms;

/// Supported policy file formats.
#[derive(Debug, Clone, Copy, PartialEq, Eq, Structural)]
pub enum PolicyFormat {
    /// JSON (default).
    Json,
    /// YAML.
    Yaml,
}

/// Result of loading a policy file.
#[derive(Debug)]
pub struct PolicyLoadResult {
    pub rules: Vec<PolicyRule>,
    pub format: PolicyFormat,
    pub skipped_rules: usize,
}

/// The last path component that names something, as `Path::file_name`
/// finds it: empty and `.` segments are skipped; a final `..` has none.
pub open spec fn last_named(segs: Seq<Seq<char>>) -> Option<Seq<char>>
    decreases segs.len(),
{
    if segs.len() == 0 {
        None
    } else if segs.last().len() == 0 || segs.last() == dot() {
        last_named(segs.drop_last())
    } else if segs.last() == dotdot() {
        None
    } else {
        Some(segs.last())
    }
}

/// Index of the last `.` of `s`, if any.
pub open spec fn last_dot(s: Seq<char>) -> Option<int>
    decreases s.len(),
{
    if s.len() == 0 {
        None
    } else if s.last() == '.' {
        Some(s.len() - 1)
    } else {
        last_dot(s.drop_last())
    }
}

/// The extension of a file name, as `Path::extension` gives it: what
/// follows the last `.`, unless that dot starts the name.
pub open spec fn name_extension(name: Seq<char>) -> Option<Seq<char>> {
    match last_dot(name) {
        Some(k) => if k == 0 {
            None
        } else {
            Some(name.subrange(k + 1, name.len() as int))
        },
        None => None,
    }
}

/// The extension of a path.
pub open spec fn path_extension(path: Seq<char>) -> Option<Seq<char>> {
    match last_named(split_on(path, '/')) {
        Some(name) => name_extension(name),
        None => None,
    }
}

/// The path names a YAML file: extension `yaml` or `yml`.
pub open spec fn is_yaml_path(path: Seq<char>) -> bool {
    path_extension(path) == Some("yaml"@) || path_extension(path) == Some("yml"@)
}

/// Lemma: `last_named` over the segments kept so far, scanning backwards.
proof fn lemma_last_named_step(segs: Seq<Seq<char>>, n: int)
    requires
        0 < n <= segs.len(),
    ensures
        last_named(segs.subrange(0, n)) == (if segs[n - 1].len() == 0 || segs[n - 1] == dot() {
            last_named(segs.subrange(0, n - 1))
        } else if segs[n - 1] == dotdot() {
            None
        } else {
            Some(segs[n - 1])
        }),
{
    assert(segs.subrange(0, n).drop_last() =~= segs.subrange(0, n - 1));
}

/// The extension of `path`, if it has one.
pub fn extension_of(path: &str) -> (r: Option<Vec<char>>)
    ensures
        match path_extension(path@) {
            Some(e) => r matches Some(x) && x@ == e,
            None => r is None,
        },
{
    let p = chars_of(path);
    let segs = split_chars(p.as_slice(), '/');
    let ghost all = split_on(path@, '/');
    let dd = chars_of("..");
    let d = chars_of(".");
    proof {
        reveal_strlit("..");
        reveal_strlit(".");
        assert(dd@ =~= dotdot());
        assert(d@ =~= dot());
        assert(all.subrange(0, all.len() as int) =~= all);
    }
    let mut n: usize = segs.len();
    while n > 0
        invariant
            n <= segs@.len(),
            segs@.len() == all.len(),
            all == split_on(path@, '/'),
            forall|k: int| 0 <= k < all.len() ==> #[trigger] segs@[k]@ == all[k],
            dd@ == dotdot(),
            d@ == dot(),
            last_named(all) == last_named(all.subrange(0, n as int)),
        decreases n,
    {
        proof {
            lemma_last_named_step(all, n as int);
        }
        let seg = segs[n - 1].as_slice();
        assert(seg@ == all[n - 1]);
        if seg.len() == 0 || chars_eq(seg, d.as_slice()) {
            n = n - 1;
        } else if chars_eq(seg, dd.as_slice()) {
            return None;
        } else {
            return extension_of_name(seg);
        }
    }
    assert(all.subrange(0, 0) =~= Seq::<Seq<char>>::empty());
    None
}

/// The extension of a file name, if it has one.
fn extension_of_name(name: &[char]) -> (r: Option<Vec<char>>)
    ensures
        match name_extension(name@) {
            Some(e) => r matches Some(x) && x@ == e,
            None => r is None,
        },
{
    let mut k: usize = name.len();
    assert(name@.subrange(0, name@.len() as int) =~= name@);
    while k > 0 && name[k - 1] != '.'
        invariant
            k <= name@.len(),
            last_dot(name@) == last_dot(name@.subrange(0, k as int)),
        decreases k,
    {
        assert(name@.subrange(0, k as int).drop_last() =~= name@.subrange(0, k - 1));
        k = k - 1;
    }
    if k == 0 {
        assert(name@.subrange(0, 0) =~= Seq::<char>::empty());
        return None;
    }
    assert(name@.subrange(0, k as int).last() == '.');
    if k - 1 == 0 {
        return None;
    }
    Some(slice_chars(name, k, name.len()))
}

/// Whether `path` names a YAML file (extension `yaml` or `yml`).
pub fn is_yaml_file(path: &str) -> (r: bool)
    ensures
        r == is_yaml_path(path@),
{
    match extension_of(path) {
        Some(e) => eq_str(e.as_slice(), "yaml") || eq_str(e.as_slice(), "yml"),
        None => false,
    }
}

/// The format of a policy file by its extension: YAML for `.yaml`/`.yml`
/// (case-sensitive), JSON otherwise.
pub fn detect_format(path: &str) -> (r: PolicyFormat)
    ensures
        r == (if is_yaml_path(path@) {
            PolicyFormat::Yaml
        } else {
            PolicyFormat::Json
        }),
{
    if is_yaml_file(path) {
        PolicyFormat::Yaml
    } else {
        PolicyFormat::Json
    }
}

/// Why a policy file could not be loaded.
#[derive(Debug)]
pub enum PolicyLoadError {
    IoError(String),
    JsonParseError(String),
    YamlParseError(String),
    MissingRulesArray,
}

/// The message of a policy load error.
pub open spec fn load_error_text(e: PolicyLoadError) -> Seq<char> {
    match e {
        PolicyLoadError::IoError(m) => "Failed to read policy file: "@ + m@,
        PolicyLoadError::JsonParseError(m) => "Failed to parse JSON policy: "@ + m@,
        PolicyLoadError::YamlParseError(m) => "Failed to parse YAML policy: "@ + m@,
        PolicyLoadError::MissingRulesArray => "Policy file missing 'rules' array"@,
    }
}

impl PolicyLoadError {
    /// The error's message.
    pub fn to_string(&self) -> (r: String)
        ensures
            r@ == load_error_text(*self),
    {
        let mut m: Vec<char> = Vec::new();
        match self {
            PolicyLoadError::IoError(d) => {
                crate::text::append_str(&mut m, "Failed to read policy file: ");
                crate::text::append_str(&mut m, d.as_str());
            },
            PolicyLoadError::JsonParseError(d) => {
                crate::text::append_str(&mut m, "Failed to parse JSON policy: ");
                crate::text::append_str(&mut m, d.as_str());
            },
            PolicyLoadError::YamlParseError(d) => {
                crate::text::append_str(&mut m, "Failed to parse YAML policy: ");
                crate::text::append_str(&mut m, d.as_str());
            },
            PolicyLoadError::MissingRulesArray => {
                crate::text::append_str(&mut m, "Policy file missing 'rules' array");
            },
        }
        crate::text::string_from_chars(m.as_slice())
    }
}

/// The rules that parsed, in order.
pub open spec fn present_rules(s: Seq<Option<PolicyRule>>) -> Seq<PolicyRule>
    decreases s.len(),
{
    if s.len() == 0 {
        Seq::empty()
    } else {
        match s.last() {
            Some(r) => present_rules(s.drop_last()).push(r),
            None => present_rules(s.drop_last()),
        }
    }
}

/// Lemma: no more rules parsed than there were entries.
proof fn lemma_present_len(s: Seq<Option<PolicyRule>>)
    ensures
        present_rules(s).len() <= s.len(),
    decreases s.len(),
{
    if s.len() > 0 {
        lemma_present_len(s.drop_last());
    }
}

/// Assembles the load result of a policy text in `format`, given what
/// parsing it gave: the parser's message when the text did not parse,
/// `None` when it has no `rules` array, else each entry of that array as
/// a rule or `None` when the entry is not a valid rule. Entries that are
/// not rules are skipped and counted.
pub fn load_policy_from_parsed(
    format: PolicyFormat,
    parsed: Result<Option<Vec<Option<PolicyRule>>>, String>,
) -> (r: Result<PolicyLoadResult, PolicyLoadError>)
    ensures
        match parsed {
            Err(m) => match format {
                PolicyFormat::Json => r matches Err(PolicyLoadError::JsonParseError(x)) && x == m,
                PolicyFormat::Yaml => r matches Err(PolicyLoadError::YamlParseError(x)) && x == m,
            },
            Ok(None) => r matches Err(PolicyLoadError::MissingRulesArray),
            Ok(Some(entries)) => r matches Ok(res) && res.format == format && res.rules@ == present_rules(entries@)
                && res.skipped_rules == entries@.len() - present_rules(entries@).len(),
        },
{
    let mut entries = match parsed {
        Err(m) => {
            return match format {
                PolicyFormat::Json => Err(PolicyLoadError::JsonParseError(m)),
                PolicyFormat::Yaml => Err(PolicyLoadError::YamlParseError(m)),
            };
        },
        Ok(None) => return Err(PolicyLoadError::MissingRulesArray),
        Ok(Some(e)) => e,
    };
    let ghost orig = entries@;
    let total = entries.len();
    let mut rules: Vec<PolicyRule> = Vec::new();
    let mut i: usize = 0;
    assert(orig.subrange(0, 0) =~= Seq::<Option<PolicyRule>>::empty());
    assert(orig.subrange(0, orig.len() as int) =~= orig);
    while entries.len() > 0
        invariant
            i <= orig.len(),
            total == orig.len(),
            entries@ == orig.subrange(i as int, orig.len() as int),
            rules@ == present_rules(orig.subrange(0, i as int)),
        decreases entries@.len(),
    {
        let e = entries.remove(0);
        assert(orig.subrange(0, i + 1).drop_last() =~= orig.subrange(0, i as int));
        assert(orig.subrange(0, i + 1).last() == e);
        assert(entries@ =~= orig.subrange(i + 1, orig.len() as int));
        match e {
            Some(rule) => {
                rules.push(rule);
            },
            None => {},
        }
        i = i + 1;
    }
    assert(i == orig.len());
    proof {
        lemma_present_len(orig);
    }
    let skipped = total - rules.len();
    Ok(PolicyLoadResult { rules, format, skipped_rules: skipped })
}

} // verus!
