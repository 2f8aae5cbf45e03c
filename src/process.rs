use vstd::prelude::*;

use crate::code::{code_date, code_seq, decode, get_code, has_code};
use crate::date::{lemma_key_valid, Date};
use crate::digits::{is_digit, lemma_padded, lemma_pow10_values, padded, push_padded};
use crate::error::{EnumerateError, ParseScriptError, RenameError};
use crate::naming::{
    canonical_file_name, format_target_name, join_path, lemma_canonical_no_sep,
    lemma_join_base_name, slug, target_name,
};
use crate::parse_path::{parse_path, parse_path_result, splits, version_text};
use crate::paths::{base_name, is_component, no_sep, normalized, views};

verus! {

/// What one run of the planner works from.
pub struct Configuration {
    /// The repository's working directory or the bare repository.
    pub repo_path: String,
    /// The migrations root, relative to the repository.
    pub root_directory: String,
    /// The ref whose newest script numbering continues from.
    pub target_branch: String,
    /// The ref whose scripts get new names.
    pub source_branch: String,
    /// The extension (without the dot) that listed blobs must have.
    pub extension_filter: Option<String>,
    /// The directory that listed blobs of the target ref must lie in.
    pub target_directory_filter: Option<String>,
    /// The directory that listed blobs of the source ref must lie in.
    pub source_directory_filter: Option<String>,
}

impl Default for Configuration {
    fn default() -> (r: Self)
        ensures
            r.repo_path@.len() == 0,
            r.root_directory@.len() == 0,
            r.target_branch@.len() == 0,
            r.source_branch@.len() == 0,
            r.extension_filter is None,
            r.target_directory_filter is None,
            r.source_directory_filter is None,
    {
        Self {
            repo_path: String::new(),
            root_directory: String::new(),
            target_branch: String::new(),
            source_branch: String::new(),
            extension_filter: None,
            target_directory_filter: None,
            source_directory_filter: None,
        }
    }
}

/// The canonical code `V<date>.<n>`: the date as eight digits, the sequence number with at
/// least two.
pub open spec fn order_code(date: nat, n: nat) -> Seq<char> {
    seq!['V'] + padded(date, 8) + seq!['.'] + padded(n, 2)
}

pub open spec fn listing_view(l: Result<Vec<String>, EnumerateError>) -> Result<
    Seq<Seq<char>>,
    EnumerateError,
> {
    match l {
        Ok(v) => Ok(views(v@)),
        Err(e) => Err(e),
    }
}

/// The proposals for the source listing `sources`, when the newest target script is
/// `last` and numbering continues from date `date` and sequence `seq`: the `i`-th source
/// script goes, under its canonical name with sequence `seq + i + 1`, into the directory
/// of `last`.
pub open spec fn proposals_for(
    root: Seq<char>,
    last: Seq<char>,
    date: nat,
    seq: nat,
    sources: Seq<Seq<char>>,
    ps: Seq<(String, String)>,
) -> bool {
    &&& ps.len() == sources.len()
    &&& forall|i: int|
        0 <= i < ps.len() ==> {
            &&& (#[trigger] ps[i]).0@ == sources[i]
            &&& ps[i].1@ == target_name(
                normalized(root),
                version_text(last, root),
                order_code(date, (seq + i + 1) as nat),
                sources[i],
            )
        }
}

/// The outcome of planning with the target listing `target` and the source listing
/// `source`.
pub open spec fn plan_result(
    config: Configuration,
    today: Date,
    target: Result<Seq<Seq<char>>, EnumerateError>,
    source: Result<Seq<Seq<char>>, EnumerateError>,
    r: Result<Seq<(String, String)>, RenameError>,
) -> bool {
    let root = config.root_directory@;
    match target {
        Err(cause) => match r {
            Err(RenameError::TargetUnavailable { branch, cause: c }) => branch@
                == config.target_branch@ && c == cause,
            _ => false,
        },
        Ok(ts) => if ts.len() == 0 {
            r == Ok::<Seq<(String, String)>, RenameError>(Seq::empty())
        } else {
            let last = ts.last();
            match r {
                Err(RenameError::Path(e)) => parse_path_result(
                    last,
                    root,
                    Err::<crate::config::PathConfig, ParseScriptError>(e),
                ),
                Err(RenameError::SourceUnavailable { branch, cause }) => {
                    &&& splits(last, root)
                    &&& source == Err::<Seq<Seq<char>>, EnumerateError>(cause)
                    &&& branch@ == config.source_branch@
                },
                Err(RenameError::MalformedCode { file }) => {
                    &&& splits(last, root)
                    &&& source is Ok
                    &&& decode(last, today) is None
                    &&& file@ == last
                },
                Ok(ps) => {
                    let start = decode(last, today)->0;
                    &&& splits(last, root)
                    &&& source is Ok
                    &&& decode(last, today) is Some
                    &&& proposals_for(root, last, start.0, start.1, source->Ok_0, ps)
                },
                _ => false,
            }
        },
    }
}

/// Writes the canonical code `V<date>.<n>`.
pub fn order_code_text(date: u32, n: u128) -> (r: String)
    ensures
        r@ == order_code(date as nat, n as nat),
{
    let mut s = String::new();
    s.push('V');
    push_padded(&mut s, date as u128, 8);
    s.push('.');
    push_padded(&mut s, n, 2);
    assert(s@ =~= order_code(date as nat, n as nat));
    s
}

/// Plans the renames from the listings of the target ref and the source ref (each blob
/// path in tree order, or why the ref could not be listed). The newest target script,
/// the last of its listing, is split against the migrations root and its code decoded
/// with `today`; the `i`-th source script then gets sequence number `seq + i + 1` and a
/// canonical name in the directory of the newest target script. An empty target listing
/// gives no proposals. Errors come in this order: the target listing, the split of the
/// newest target script, the source listing, its code.
pub fn plan_renames(
    config: &Configuration,
    today: &Date,
    target: Result<Vec<String>, EnumerateError>,
    source: Result<Vec<String>, EnumerateError>,
) -> (r: Result<Vec<(String, String)>, RenameError>)
    requires
        today.wf(),
    ensures
        plan_result(
            *config,
            *today,
            listing_view(target),
            listing_view(source),
            match r {
                Ok(v) => Ok(v@),
                Err(e) => Err(e),
            },
        ),
{
    let target_files = match target {
        Err(cause) => {
            return Err(RenameError::TargetUnavailable { branch: config.target_branch.clone(), cause });
        },
        Ok(t) => t,
    };
    if target_files.len() == 0 {
        let empty: Vec<(String, String)> = Vec::new();
        assert(empty@ =~= Seq::<(String, String)>::empty());
        return Ok(empty);
    }
    let last = &target_files[target_files.len() - 1];
    let ghost last_v = views(target_files@).last();
    assert(last@ == last_v);
    let located = match parse_path(last.as_str(), config.root_directory.as_str()) {
        Err(e) => {
            return Err(RenameError::Path(e));
        },
        Ok(c) => c,
    };
    let source_files = match source {
        Err(cause) => {
            return Err(RenameError::SourceUnavailable { branch: config.source_branch.clone(), cause });
        },
        Ok(s) => s,
    };
    let code = match get_code(last.as_str(), today) {
        Err(e) => {
            return Err(e);
        },
        Ok(c) => c,
    };
    let version = match &located.version {
        Some(v) => v.clone(),
        None => String::new(),
    };
    assert(version@ == version_text(last_v, config.root_directory@));
    let mut out: Vec<(String, String)> = Vec::new();
    let n = source_files.len();
    let mut i: usize = 0;
    while i < n
        invariant
            n == source_files@.len(),
            i <= n,
            located.folder@ == normalized(config.root_directory@),
            version@ == version_text(last_v, config.root_directory@),
            decode(last_v, *today) == Some((code.date as nat, code.seq as nat)),
            out@.len() == i,
            forall|k: int|
                0 <= k < i ==> {
                    &&& (#[trigger] out@[k]).0@ == source_files@[k]@
                    &&& out@[k].1@ == target_name(
                        normalized(config.root_directory@),
                        version_text(last_v, config.root_directory@),
                        order_code(code.date as nat, (code.seq + k + 1) as nat),
                        source_files@[k]@,
                    )
                },
        decreases n - i,
    {
        let seq_no: u128 = code.seq as u128 + i as u128 + 1;
        let order = order_code_text(code.date, seq_no);
        let name = format_target_name(
            located.folder.as_str(),
            version.as_str(),
            order.as_str(),
            source_files[i].as_str(),
        );
        out.push((source_files[i].clone(), name));
        i += 1;
    }
    Ok(out)
}

proof fn lemma_order_code_shape(d: nat, n: nat)
    requires
        d < 100000000,
    ensures
        no_sep(order_code(d, n)),
        order_code(d, n).len() >= 12,
        order_code(d, n)[0] == 'V',
        n < 100 ==> order_code(d, n).len() == 12,
{
    lemma_pow10_values();
    lemma_padded(d, 8);
    lemma_padded(n, 2);
    let c = order_code(d, n);
    let pd = padded(d, 8);
    let pn = padded(n, 2);
    assert forall|i: int| 0 <= i < c.len() implies c[i] != '/' by {
        if 1 <= i < 9 {
            assert(c[i] == pd[i - 1]);
            assert(is_digit(pd[i - 1]));
        } else if i >= 10 {
            assert(c[i] == pn[i - 10]);
            assert(is_digit(pn[i - 10]));
        }
    }
}

/// The date of a decoded starting point has eight digits.
proof fn lemma_decode_date_bound(path: Seq<char>, today: Date)
    requires
        today.wf(),
        decode(path, today) is Some,
    ensures
        (decode(path, today)->0).0 < 100000000,
{
    lemma_key_valid(today);
}

/// With an empty target listing, the plan is empty and no error comes.
pub proof fn lemma_empty_target(
    config: Configuration,
    today: Date,
    source: Result<Seq<Seq<char>>, EnumerateError>,
    r: Result<Seq<(String, String)>, RenameError>,
)
    requires
        plan_result(config, today, Ok(Seq::empty()), source, r),
    ensures
        r == Ok::<Seq<(String, String)>, RenameError>(Seq::empty()),
{
}

/// Rollover: when `today` comes after the date of the newest target script, the proposals
/// carry `today` with sequence numbers `1..=n`; otherwise they keep that script's date and
/// continue from its sequence number.
pub proof fn lemma_date_rule(
    config: Configuration,
    today: Date,
    targets: Seq<Seq<char>>,
    source: Result<Seq<Seq<char>>, EnumerateError>,
    ps: Seq<(String, String)>,
)
    requires
        today.wf(),
        targets.len() > 0,
        plan_result(config, today, Ok(targets), source, Ok(ps)),
    ensures
        ({
            let root = config.root_directory@;
            let last = targets.last();
            let name = base_name(last);
            let sources = source->Ok_0;
            &&& today.key() > code_date(name) ==> forall|i: int|
                0 <= i < ps.len() ==> (#[trigger] ps[i]).1@ == target_name(
                    normalized(root),
                    version_text(last, root),
                    order_code(today.key(), (i + 1) as nat),
                    sources[i],
                )
            &&& today.key() <= code_date(name) ==> forall|i: int|
                0 <= i < ps.len() ==> (#[trigger] ps[i]).1@ == target_name(
                    normalized(root),
                    version_text(last, root),
                    order_code(code_date(name), (code_seq(name) + i + 1) as nat),
                    sources[i],
                )
        }),
{
}

/// Every proposal lies directly in the directory of the newest target script: the
/// normalized root joined with that script's subpath.
pub proof fn lemma_same_directory(
    config: Configuration,
    today: Date,
    targets: Seq<Seq<char>>,
    source: Result<Seq<Seq<char>>, EnumerateError>,
    ps: Seq<(String, String)>,
)
    requires
        today.wf(),
        targets.len() > 0,
        plan_result(config, today, Ok(targets), source, Ok(ps)),
    ensures
        forall|i: int|
            0 <= i < ps.len() ==> (#[trigger] ps[i]).1@ == join_path(
                join_path(
                    normalized(config.root_directory@),
                    version_text(targets.last(), config.root_directory@),
                ),
                base_name(ps[i].1@),
            ),
{
    let root = config.root_directory@;
    let last = targets.last();
    let start = decode(last, today)->0;
    lemma_decode_date_bound(last, today);
    let dir = join_path(normalized(root), version_text(last, root));
    assert forall|i: int| 0 <= i < ps.len() implies (#[trigger] ps[i]).1@ == join_path(
        dir,
        base_name(ps[i].1@),
    ) by {
        let code = order_code(start.0, (start.1 + i + 1) as nat);
        let file = canonical_file_name(code, (source->Ok_0)[i]);
        lemma_order_code_shape(start.0, (start.1 + i + 1) as nat);
        lemma_canonical_no_sep(code, (source->Ok_0)[i]);
        assert(file.len() >= 12);
        assert(is_component(file)) by {
            assert(file.len() != 1);
        }
        lemma_join_base_name(dir, file);
    }
}

/// Decoding the code at the start of a proposed file name and writing it again gives back
/// the name's first fourteen characters, `V<date>.<NN>__`, and the decoded numbers are
/// the proposal's own. This needs a sequence number below 100 and a non-empty slug.
pub proof fn lemma_code_round_trip(
    config: Configuration,
    today: Date,
    targets: Seq<Seq<char>>,
    source: Result<Seq<Seq<char>>, EnumerateError>,
    ps: Seq<(String, String)>,
    i: int,
)
    requires
        today.wf(),
        targets.len() > 0,
        plan_result(config, today, Ok(targets), source, Ok(ps)),
        0 <= i < ps.len(),
        (decode(targets.last(), today)->0).1 + i + 1 < 100,
        slug(base_name((source->Ok_0)[i])).len() > 0,
    ensures
        ({
            let name = base_name(ps[i].1@);
            let start = decode(targets.last(), today)->0;
            &&& has_code(name)
            &&& code_date(name) == start.0
            &&& code_seq(name) == start.1 + i + 1
            &&& order_code(code_date(name), code_seq(name)) + seq!['_', '_'] == name.take(14)
        }),
{
    lemma_same_directory(config, today, targets, source, ps);
    let root = config.root_directory@;
    let last = targets.last();
    let start = decode(last, today)->0;
    lemma_decode_date_bound(last, today);
    let n = (start.1 + i + 1) as nat;
    let code = order_code(start.0, n);
    let file = canonical_file_name(code, (source->Ok_0)[i]);
    let dir = join_path(normalized(root), version_text(last, root));
    lemma_order_code_shape(start.0, n);
    lemma_canonical_no_sep(code, (source->Ok_0)[i]);
    assert(is_component(file)) by {
        assert(file.len() != 1);
    }
    lemma_join_base_name(dir, file);
    assert(ps[i].1@ == join_path(dir, file));
    let name = base_name(ps[i].1@);
    assert(name == file);
    lemma_pow10_values();
    lemma_padded(start.0, 8);
    lemma_padded(n, 2);
    assert(name.subrange(1, 9) =~= padded(start.0, 8));
    assert(name.subrange(10, 12) =~= padded(n, 2));
    assert(name.take(14) =~= code + seq!['_', '_']);
}

} // verus!
