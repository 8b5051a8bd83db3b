//! Discovery and deduplication planning: which files are candidate images,
//! and where each one's output goes.
//!
//! Paths are handled as byte strings with `/` as the separator; the thin
//! shell around the library converts between OS paths and these bytes.

use vstd::prelude::*;

verus! {

/// The path separator `/`.
pub const SEP: u8 = 47;

/// The extension dot `.`.
pub const DOT: u8 = 46;

/// The letter `j`.
pub const J: u8 = 106;

/// The letter `p`.
pub const P: u8 = 112;

/// The letter `g`.
pub const G: u8 = 103;

/// The letter `e`.
pub const E: u8 = 101;

/// The letter `n`.
pub const N: u8 = 110;

/// The position of the last occurrence of `c` in `s`, if any.
pub open spec fn find_last(s: Seq<u8>, c: u8) -> Option<int>
    decreases s.len(),
{
    if s.len() == 0 {
        None
    } else if s.last() == c {
        Some(s.len() - 1)
    } else {
        find_last(s.drop_last(), c)
    }
}

/// A position holding `c` with no later occurrence is what `find_last`
/// returns.
proof fn lemma_find_last_at(s: Seq<u8>, c: u8, i: int)
    requires
        0 <= i < s.len(),
        s[i] == c,
        forall|j: int| i < j < s.len() ==> s[j] != c,
    ensures
        find_last(s, c) == Some(i),
    decreases s.len(),
{
    if i < s.len() - 1 {
        assert(s.drop_last()[i] == s[i]);
        lemma_find_last_at(s.drop_last(), c, i);
    }
}

/// When no position holds `c`, `find_last` finds nothing.
proof fn lemma_find_last_absent(s: Seq<u8>, c: u8)
    requires
        forall|j: int| 0 <= j < s.len() ==> s[j] != c,
    ensures
        find_last(s, c) is None,
    decreases s.len(),
{
    if s.len() > 0 {
        assert forall|j: int| 0 <= j < s.len() - 1 implies s.drop_last()[j] != c by {
            assert(s.drop_last()[j] == s[j]);
        }
        lemma_find_last_absent(s.drop_last(), c);
    }
}

/// The position of the last occurrence of `c` in `s`, scanning from the
/// end.
fn rfind_byte(s: &[u8], c: u8) -> (found: Option<usize>)
    ensures
        match found {
            Some(i) => i < s@.len() && find_last(s@, c) == Some(i as int),
            None => find_last(s@, c) is None,
        },
{
    let mut i: usize = s.len();
    while i > 0
        invariant
            0 <= i <= s@.len(),
            forall|j: int| i <= j < s@.len() ==> s@[j] != c,
        decreases i,
    {
        i = i - 1;
        if s[i] == c {
            proof {
                lemma_find_last_at(s@, c, i as int);
            }
            return Some(i);
        }
    }
    proof {
        lemma_find_last_absent(s@, c);
    }
    None
}

/// Where the file name of a path begins: right after the last separator,
/// or at the start when there is none.
pub open spec fn file_name_start(s: Seq<u8>) -> int {
    match find_last(s, SEP) {
        Some(i) => i + 1,
        None => 0,
    }
}

/// The position of the dot introducing the path's extension: the last dot,
/// provided it lies inside the file name and is not its first byte.
pub open spec fn extension_dot(s: Seq<u8>) -> Option<int> {
    match find_last(s, DOT) {
        Some(p) => if p > file_name_start(s) {
            Some(p)
        } else {
            None
        },
        None => None,
    }
}

/// The path's extension: what follows the extension dot, if there is one.
pub open spec fn extension_of(s: Seq<u8>) -> Option<Seq<u8>> {
    match extension_dot(s) {
        Some(p) => Some(s.subrange(p + 1, s.len() as int)),
        None => None,
    }
}

/// The extensions the planner accepts, exactly and case-sensitively.
pub open spec fn spec_is_image(s: Seq<u8>) -> bool {
    ||| extension_of(s) == Some(seq![J, P, G])
    ||| extension_of(s) == Some(seq![J, P, E, G])
    ||| extension_of(s) == Some(seq![P, N, G])
}

/// Whether a path names a candidate input image: its extension is exactly
/// `jpg`, `jpeg` or `png`.
pub fn is_image(path: &[u8]) -> (accepted: bool)
    ensures
        accepted == spec_is_image(path@),
{
    let ghost s = path@;
    let n = path.len();
    let dot = match rfind_byte(path, DOT) {
        Some(d) => d,
        None => {
            return false;
        },
    };
    let start: usize = match rfind_byte(path, SEP) {
        Some(i) => i + 1,
        None => 0,
    };
    if dot < start || dot == start {
        return false;
    }
    let ghost ext = s.subrange(dot + 1, s.len() as int);
    if n - dot - 1 == 3 {
        let a = path[dot + 1];
        let b = path[dot + 2];
        let c = path[dot + 3];
        proof {
            assert(ext.len() == 3);
            assert(ext[0] == a && ext[1] == b && ext[2] == c);
            if a == J && b == P && c == G {
                assert(ext =~= seq![J, P, G]);
            }
            if a == P && b == N && c == G {
                assert(ext =~= seq![P, N, G]);
            }
        }
        (a == J && b == P && c == G) || (a == P && b == N && c == G)
    } else if n - dot - 1 == 4 {
        let a = path[dot + 1];
        let b = path[dot + 2];
        let c = path[dot + 3];
        let d = path[dot + 4];
        proof {
            assert(ext.len() == 4);
            assert(ext[0] == a && ext[1] == b && ext[2] == c && ext[3] == d);
            if a == J && b == P && c == E && d == G {
                assert(ext =~= seq![J, P, E, G]);
            }
        }
        a == J && b == P && c == E && d == G
    } else {
        proof {
            assert(ext.len() != 3 && ext.len() != 4);
        }
        false
    }
}

/// One conversion task: where the source image lives and where its
/// converted form goes.
#[derive(Debug)]
pub struct ConvertItem {
    /// The source image path.
    pub input: Vec<u8>,
    /// The deterministic output path mirroring the input tree.
    pub output: Vec<u8>,
}

impl ConvertItem {
    /// Pairs an input path with its output path.
    pub fn new(input: Vec<u8>, output: Vec<u8>) -> (item: ConvertItem)
        ensures
            item.input@ == input@,
            item.output@ == output@,
    {
        ConvertItem { input, output }
    }
}

/// Planning failure: the input path does not lie beneath the input root.
#[derive(Clone, Copy, Debug, PartialEq, Eq, Structural)]
pub enum PlanError {
    NotUnderRoot,
}

/// Whether `input` lies beneath the directory `root`: `root` is a byte
/// prefix and the cut falls on a path-component boundary.
pub open spec fn under_root(input: Seq<u8>, root: Seq<u8>) -> bool {
    &&& input.len() >= root.len()
    &&& input.subrange(0, root.len() as int) == root
    &&& (root.len() == 0 || root[root.len() - 1] == SEP || input.len() == root.len()
        || input[root.len() as int] == SEP)
}

/// Where the part of `input` relative to `root` begins: past the root and
/// past one separator, if one follows it.
pub open spec fn rel_start(input: Seq<u8>, root: Seq<u8>) -> int {
    if root.len() < input.len() && input[root.len() as int] == SEP {
        root.len() as int + 1
    } else {
        root.len() as int
    }
}

/// The part of `input` relative to `root`.
pub open spec fn rel_of(input: Seq<u8>, root: Seq<u8>) -> Seq<u8> {
    input.subrange(rel_start(input, root), input.len() as int)
}

/// `root` and `rel` joined with a single separator between them.
pub open spec fn joined(root: Seq<u8>, rel: Seq<u8>) -> Seq<u8> {
    if rel.len() == 0 {
        root
    } else if root.len() > 0 && root[root.len() - 1] == SEP {
        root + rel
    } else {
        root + seq![SEP] + rel
    }
}

/// `path` with its extension replaced by `ext`: the part after the
/// extension dot is swapped out, or `.ext` is appended when the path has
/// no extension.
pub open spec fn with_extension(path: Seq<u8>, ext: Seq<u8>) -> Seq<u8> {
    match extension_dot(path) {
        Some(d) => path.subrange(0, d + 1) + ext,
        None => path + seq![DOT] + ext,
    }
}

/// The output path of an input: the output root, then the input's
/// position relative to the input root, with the extension swapped.
pub open spec fn spec_output(
    input: Seq<u8>,
    input_root: Seq<u8>,
    output_root: Seq<u8>,
    ext: Seq<u8>,
) -> Seq<u8> {
    with_extension(joined(output_root, rel_of(input, input_root)), ext)
}

/// Appends a byte slice to a vector.
fn push_all(dst: &mut Vec<u8>, src: &[u8])
    ensures
        final(dst)@ == old(dst)@ + src@,
{
    let mut i: usize = 0;
    while i < src.len()
        invariant
            0 <= i <= src@.len(),
            dst@ == old(dst)@ + src@.subrange(0, i as int),
        decreases src@.len() - i,
    {
        dst.push(src[i]);
        i += 1;
        proof {
            assert(old(dst)@ + src@.subrange(0, i as int) =~= (old(dst)@ + src@.subrange(
                0,
                i as int - 1,
            )).push(src@[i as int - 1]));
        }
    }
    proof {
        assert(src@.subrange(0, src@.len() as int) =~= src@);
    }
}

/// Whether `prefix` is a byte prefix of `s`.
fn starts_with_bytes(s: &[u8], prefix: &[u8]) -> (r: bool)
    ensures
        r == (s@.len() >= prefix@.len() && s@.subrange(0, prefix@.len() as int) =~= prefix@),
{
    if s.len() < prefix.len() {
        return false;
    }
    let mut i: usize = 0;
    while i < prefix.len()
        invariant
            0 <= i <= prefix@.len() <= s@.len(),
            forall|j: int| 0 <= j < i ==> s@[j] == prefix@[j],
        decreases prefix@.len() - i,
    {
        if s[i] != prefix[i] {
            proof {
                assert(s@.subrange(0, prefix@.len() as int)[i as int] != prefix@[i as int]);
            }
            return false;
        }
        i += 1;
    }
    proof {
        assert(s@.subrange(0, prefix@.len() as int) =~= prefix@);
    }
    true
}

/// Maps an accepted input path to its conversion task: the output path
/// mirrors the input's position under the input root, rooted at the
/// output root and with the extension swapped. Errs when the input does
/// not lie beneath the input root.
pub fn to_item(
    input: &[u8],
    input_prefix: &[u8],
    output_prefix: &[u8],
    output_extension: &[u8],
) -> (item: Result<ConvertItem, PlanError>)
    ensures
        item is Ok <==> under_root(input@, input_prefix@),
        item matches Ok(it) ==> it.input@ == input@ && it.output@ == spec_output(
            input@,
            input_prefix@,
            output_prefix@,
            output_extension@,
        ),
        item matches Err(e) ==> e == PlanError::NotUnderRoot,
{
    if !starts_with_bytes(input, input_prefix) {
        return Err(PlanError::NotUnderRoot);
    }
    let k = input_prefix.len();
    let boundary = k == 0 || input_prefix[k - 1] == SEP || input.len() == k || input[k] == SEP;
    if !boundary {
        return Err(PlanError::NotUnderRoot);
    }
    let mut rs = k;
    if rs < input.len() && input[rs] == SEP {
        rs = rs + 1;
    }
    proof {
        assert(rs as int == rel_start(input@, input_prefix@));
    }
    let mut joined_path: Vec<u8> = Vec::new();
    push_all(&mut joined_path, output_prefix);
    if rs < input.len() {
        let p = output_prefix.len();
        if p == 0 || output_prefix[p - 1] != SEP {
            joined_path.push(SEP);
        }
        push_all(&mut joined_path, vstd::slice::slice_subrange(input, rs, input.len()));
    }
    proof {
        let relv = rel_of(input@, input_prefix@);
        if relv.len() == 0 {
            assert(joined_path@ =~= joined(output_prefix@, relv));
        } else if output_prefix@.len() > 0 && output_prefix@[output_prefix@.len() - 1] == SEP {
            assert(joined_path@ =~= joined(output_prefix@, relv));
        } else {
            assert(joined_path@ =~= joined(output_prefix@, relv));
        }
    }
    let ghost jp = joined_path@;
    let jn = joined_path.len();
    proof {
        assert(jp.len() == jn);
    }
    let dot = rfind_byte(joined_path.as_slice(), DOT);
    let slash = rfind_byte(joined_path.as_slice(), SEP);
    let start: usize = match slash {
        Some(i) => i + 1,
        None => 0,
    };
    let mut out = joined_path;
    match dot {
        Some(d) if d > start => {
            out.truncate(d + 1);
            push_all(&mut out, output_extension);
            proof {
                assert(out@ =~= with_extension(jp, output_extension@));
            }
        },
        _ => {
            out.push(DOT);
            push_all(&mut out, output_extension);
            proof {
                assert(out@ =~= with_extension(jp, output_extension@));
            }
        },
    }
    Ok(ConvertItem::new(vstd::slice::slice_to_vec(input), out))
}

/// The `(input, output)` path pair of one conversion task.
pub open spec fn item_view(item: ConvertItem) -> (Seq<u8>, Seq<u8>) {
    (item.input@, item.output@)
}

/// The `(input, output)` path pairs of a sequence of tasks.
pub open spec fn items_view(items: Seq<ConvertItem>) -> Seq<(Seq<u8>, Seq<u8>)> {
    items.map_values(|item: ConvertItem| item_view(item))
}

/// The plan for a sequence of discovered paths: each path whose extension
/// is accepted and which lies beneath the input root becomes a task; the
/// rest are dropped.
pub open spec fn spec_plan(
    paths: Seq<Seq<u8>>,
    input_root: Seq<u8>,
    output_root: Seq<u8>,
    ext: Seq<u8>,
) -> Seq<(Seq<u8>, Seq<u8>)>
    decreases paths.len(),
{
    if paths.len() == 0 {
        Seq::empty()
    } else {
        let rest = spec_plan(paths.drop_last(), input_root, output_root, ext);
        let p = paths.last();
        if spec_is_image(p) && under_root(p, input_root) {
            rest.push((p, spec_output(p, input_root, output_root, ext)))
        } else {
            rest
        }
    }
}

/// Builds the conversion tasks for the discovered paths: keeps the paths
/// whose extension is `jpg`, `jpeg` or `png` and which lie beneath the
/// input root, in discovery order, and maps each to its output path.
pub fn to_items(
    paths: &Vec<Vec<u8>>,
    input_root: &[u8],
    output_root: &[u8],
    ext: &[u8],
) -> (items: Vec<ConvertItem>)
    ensures
        items_view(items@) == spec_plan(paths.deep_view(), input_root@, output_root@, ext@),
{
    let mut items: Vec<ConvertItem> = Vec::new();
    let mut i: usize = 0;
    while i < paths.len()
        invariant
            0 <= i <= paths@.len(),
            paths.deep_view().len() == paths@.len(),
            forall|j: int| 0 <= j < paths@.len() ==> paths.deep_view()[j] == paths@[j]@,
            items_view(items@) == spec_plan(
                paths.deep_view().take(i as int),
                input_root@,
                output_root@,
                ext@,
            ),
        decreases paths@.len() - i,
    {
        let ghost taken = paths.deep_view().take(i as int + 1);
        proof {
            assert(taken.drop_last() =~= paths.deep_view().take(i as int));
            assert(taken.last() == paths@[i as int]@);
        }
        let path = &paths[i];
        if is_image(path.as_slice()) {
            match to_item(path.as_slice(), input_root, output_root, ext) {
                Ok(item) => {
                    items.push(item);
                    proof {
                        assert(items_view(items@) =~= spec_plan(
                            taken,
                            input_root@,
                            output_root@,
                            ext@,
                        ));
                    }
                },
                Err(_) => {
                    proof {
                        assert(items_view(items@) =~= spec_plan(
                            taken,
                            input_root@,
                            output_root@,
                            ext@,
                        ));
                    }
                },
            }
        } else {
            proof {
                assert(items_view(items@) =~= spec_plan(taken, input_root@, output_root@, ext@));
            }
        }
        i += 1;
    }
    proof {
        assert(paths.deep_view().take(paths@.len() as int) =~= paths.deep_view());
    }
    items
}

/// The tasks whose output does not exist yet, in order: task `i` survives
/// exactly when `exists[i]` is false.
pub open spec fn spec_filter_new(
    items: Seq<(Seq<u8>, Seq<u8>)>,
    exists: Seq<bool>,
) -> Seq<(Seq<u8>, Seq<u8>)>
    decreases items.len(),
{
    if items.len() == 0 || items.len() != exists.len() {
        Seq::empty()
    } else {
        let rest = spec_filter_new(items.drop_last(), exists.drop_last());
        if exists.last() {
            rest
        } else {
            rest.push(items.last())
        }
    }
}

/// Drops every task whose output already exists, making repeated runs
/// idempotent: `exists[i]` says whether task `i`'s output path is already
/// present.
pub fn filter_new(items: Vec<ConvertItem>, exists: &[bool]) -> (fresh: Vec<ConvertItem>)
    requires
        items@.len() == exists@.len(),
    ensures
        items_view(fresh@) == spec_filter_new(items_view(items@), exists@),
{
    let ghost all = items_view(items@);
    let mut rest = items;
    let mut fresh: Vec<ConvertItem> = Vec::new();
    let mut i: usize = 0;
    while rest.len() > 0
        invariant
            0 <= i <= all.len(),
            i + rest@.len() == all.len(),
            exists@.len() == all.len(),
            items_view(rest@) =~= all.subrange(i as int, all.len() as int),
            items_view(fresh@) == spec_filter_new(
                all.subrange(0, i as int),
                exists@.subrange(0, i as int),
            ),
        decreases rest@.len(),
    {
        let ghost before = rest@;
        let item = rest.remove(0);
        proof {
            assert(items_view(before)[0] == item_view(before[0]));
            assert(item_view(item) == all[i as int]);
            assert forall|j: int| 0 <= j < rest@.len() implies items_view(rest@)[j] == all[i as int
                + 1 + j] by {
                assert(rest@[j] == before[j + 1]);
                assert(items_view(before)[j + 1] == item_view(before[j + 1]));
            }
            assert(items_view(rest@) =~= all.subrange(i as int + 1, all.len() as int));
        }
        let ghost prev_fresh = items_view(fresh@);
        if !exists[i] {
            fresh.push(item);
            proof {
                assert(items_view(fresh@) =~= prev_fresh.push(all[i as int]));
            }
        }
        proof {
            let its = all.subrange(0, i as int + 1);
            let exs = exists@.subrange(0, i as int + 1);
            assert(its.drop_last() =~= all.subrange(0, i as int));
            assert(exs.drop_last() =~= exists@.subrange(0, i as int));
            assert(its.last() == all[i as int]);
            assert(exs.last() == exists@[i as int]);
        }
        i += 1;
    }
    proof {
        assert(all.subrange(0, all.len() as int) =~= all);
        assert(exists@.subrange(0, exists@.len() as int) =~= exists@);
    }
    fresh
}

/// The path an item is reported under: its position relative to the
/// input root when it lies beneath it, the full path otherwise.
pub open spec fn spec_report_path(path: Seq<u8>, root: Seq<u8>) -> Seq<u8> {
    if under_root(path, root) {
        rel_of(path, root)
    } else {
        path
    }
}

/// Tags a path for the failure report: relative to the input root when
/// it lies beneath it, unchanged otherwise.
pub fn report_path(path: &[u8], root: &[u8]) -> (shown: Vec<u8>)
    ensures
        shown@ == spec_report_path(path@, root@),
{
    if starts_with_bytes(path, root) {
        let k = root.len();
        let boundary = k == 0 || root[k - 1] == SEP || path.len() == k || path[k] == SEP;
        if boundary {
            let mut rs = k;
            if rs < path.len() && path[rs] == SEP {
                rs = rs + 1;
            }
            proof {
                assert(rs as int == rel_start(path@, root@));
            }
            return vstd::slice::slice_to_vec(
                vstd::slice::slice_subrange(path, rs, path.len()),
            );
        }
    }
    vstd::slice::slice_to_vec(path)
}

/// The failure report of a batch: the inputs of the failed tasks, in
/// task order, each tagged with its path relative to the input root.
pub open spec fn spec_failed_paths(
    items: Seq<(Seq<u8>, Seq<u8>)>,
    failed: Seq<bool>,
    root: Seq<u8>,
) -> Seq<Seq<u8>>
    decreases items.len(),
{
    if items.len() == 0 || items.len() != failed.len() {
        Seq::empty()
    } else {
        let rest = spec_failed_paths(items.drop_last(), failed.drop_last(), root);
        if failed.last() {
            rest.push(spec_report_path(items.last().0, root))
        } else {
            rest
        }
    }
}

/// Builds the failure report: `failed[i]` says whether task `i` failed;
/// the report holds exactly the failed tasks' input paths, in the order
/// the tasks were attempted, each relative to the input root.
pub fn failed_paths(items: &Vec<ConvertItem>, failed: &[bool], root: &[u8]) -> (report: Vec<
    Vec<u8>,
>)
    requires
        items@.len() == failed@.len(),
    ensures
        report.deep_view() == spec_failed_paths(items_view(items@), failed@, root@),
{
    let ghost all = items_view(items@);
    let mut report: Vec<Vec<u8>> = Vec::new();
    let mut i: usize = 0;
    while i < items.len()
        invariant
            0 <= i <= items@.len(),
            items@.len() == failed@.len(),
            all == items_view(items@),
            report.deep_view() == spec_failed_paths(
                all.take(i as int),
                failed@.take(i as int),
                root@,
            ),
        decreases items@.len() - i,
    {
        proof {
            let its = all.take(i as int + 1);
            let fls = failed@.take(i as int + 1);
            assert(its.drop_last() =~= all.take(i as int));
            assert(fls.drop_last() =~= failed@.take(i as int));
            assert(its.last() == all[i as int]);
            assert(all[i as int] == item_view(items@[i as int]));
        }
        let ghost before = report.deep_view();
        let ghost before_vec = report@;
        if failed[i] {
            let shown = report_path(items[i].input.as_slice(), root);
            report.push(shown);
            proof {
                let tag = spec_report_path(all[i as int].0, root@);
                assert(shown.deep_view() =~= shown@);
                assert forall|j: int| 0 <= j < report@.len() implies report.deep_view()[j]
                    == before.push(tag)[j] by {
                    if j < before_vec.len() {
                        assert(report@[j] == before_vec[j]);
                    } else {
                        assert(report@[j] == shown);
                    }
                }
                assert(report.deep_view() =~= before.push(tag));
            }
        }
        i += 1;
    }
    proof {
        assert(all.take(items@.len() as int) =~= all);
        assert(failed@.take(failed@.len() as int) =~= failed@);
    }
    report
}

/// A rerun against unchanged roots schedules nothing: when every task's
/// output already exists, the filtered plan is empty.
pub proof fn lemma_rerun_is_empty(items: Seq<(Seq<u8>, Seq<u8>)>, exists: Seq<bool>)
    requires
        items.len() == exists.len(),
        forall|i: int| 0 <= i < exists.len() ==> exists[i],
    ensures
        spec_filter_new(items, exists).len() == 0,
    decreases items.len(),
{
    if items.len() > 0 {
        assert forall|i: int| 0 <= i < exists.len() - 1 implies exists.drop_last()[i] by {
            assert(exists.drop_last()[i] == exists[i]);
        }
        lemma_rerun_is_empty(items.drop_last(), exists.drop_last());
    }
}

} // verus!
