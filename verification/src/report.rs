//! Selection and ordering for the command reports: which functions take part
//! in duplicate detection, the duplicate groups within one file, the
//! cross-file duplicate index, the filters of the file and function listings,
//! stable orders by key and by name, the totals of the summary row, the
//! reasons given for a refactoring target, and the topics of the metric
//! explanations.
use vstd::prelude::*;
use crate::data::{FunctionData, SingleFileResult, utf8_bytes};
use crate::dup::{DuplicateGroup, DuplicateIndex, FunctionLocation, FunctionSignature, spec_minhash};
use crate::metrics::{is_complex, is_deeply_nested, is_large, spec_is_complex};
use crate::text::{decimal, owned, push_decimal, str_eq};
use vstd::string::StringExecFns;

verus! {

/// A function takes part in duplicate detection when it has at least
/// `min_loc` lines, and a name unless anonymous functions are included.
pub open spec fn spec_duplicate_candidate(f: FunctionData, min_loc: u32, include_anonymous: bool) -> bool {
    f.loc >= min_loc && (include_anonymous || f.name is Some)
}

/// Whether a function takes part in duplicate detection.
pub fn duplicate_candidate(f: &FunctionData, min_loc: u32, include_anonymous: bool) -> (r: bool)
    ensures
        r == spec_duplicate_candidate(*f, min_loc, include_anonymous),
{
    f.loc >= min_loc && (include_anonymous || f.name.is_some())
}

/// The candidates among the functions of the file at `file_idx`, in order:
/// each with its location and fingerprint.
pub open spec fn file_candidates(file_idx: int, fns: Seq<FunctionData>, min_loc: u32, include_anonymous: bool) -> Seq<(FunctionLocation, u64)>
    decreases fns.len(),
{
    if fns.len() == 0 {
        Seq::empty()
    } else {
        let prev = file_candidates(file_idx, fns.drop_last(), min_loc, include_anonymous);
        if spec_duplicate_candidate(fns.last(), min_loc, include_anonymous) {
            prev.push((FunctionLocation { file_idx: file_idx as u32, fn_idx: (fns.len() - 1) as u32 }, fns.last().fingerprint))
        } else {
            prev
        }
    }
}

/// The candidates of all files, file after file.
pub open spec fn all_candidates(results: Seq<SingleFileResult>, min_loc: u32, include_anonymous: bool) -> Seq<(FunctionLocation, u64)>
    decreases results.len(),
{
    if results.len() == 0 {
        Seq::empty()
    } else {
        all_candidates(results.drop_last(), min_loc, include_anonymous)
            + file_candidates(results.len() - 1, results.last().functions@, min_loc, include_anonymous)
    }
}

/// The signatures stand for the candidates, one for one: same location, same
/// fingerprint, and the fingerprint as the only structure token.
pub open spec fn signatures_of(sigs: Seq<FunctionSignature>, cands: Seq<(FunctionLocation, u64)>) -> bool {
    &&& sigs.len() == cands.len()
    &&& forall|i: int| 0 <= i < sigs.len() ==> {
        &&& (#[trigger] sigs[i]).location == cands[i].0
        &&& sigs[i].fingerprint == cands[i].1
        &&& sigs[i].minhash@ == spec_minhash(seq![cands[i].1])
    }
}

proof fn lemma_file_candidates_prefix(file_idx: int, fns: Seq<FunctionData>, j: int, min_loc: u32, include_anonymous: bool)
    requires
        0 <= j <= fns.len(),
    ensures
        file_candidates(file_idx, fns.take(j), min_loc, include_anonymous).len()
            <= file_candidates(file_idx, fns, min_loc, include_anonymous).len(),
    decreases fns.len() - j,
{
    if j < fns.len() {
        lemma_file_candidates_prefix(file_idx, fns, j + 1, min_loc, include_anonymous);
        assert(fns.take(j + 1).drop_last() =~= fns.take(j));
    } else {
        assert(fns.take(j) =~= fns);
    }
}

proof fn lemma_all_candidates_prefix(results: Seq<SingleFileResult>, f: int, min_loc: u32, include_anonymous: bool)
    requires
        0 <= f <= results.len(),
    ensures
        all_candidates(results.take(f), min_loc, include_anonymous).len()
            <= all_candidates(results, min_loc, include_anonymous).len(),
    decreases results.len() - f,
{
    if f < results.len() {
        lemma_all_candidates_prefix(results, f + 1, min_loc, include_anonymous);
        assert(results.take(f + 1).drop_last() =~= results.take(f));
    } else {
        assert(results.take(f) =~= results);
    }
}

/// The groups of at least `min_instances` instances, in their order.
pub fn groups_with_min_instances(groups: Vec<DuplicateGroup>, min_instances: u32) -> (r: Vec<DuplicateGroup>)
    ensures
        r@ == groups@.filter(|g: DuplicateGroup| g.instances@.len() >= min_instances),
{
    let ghost orig = groups@;
    let mut rest = groups;
    let mut out: Vec<DuplicateGroup> = Vec::new();
    let n = rest.len();
    let mut i: usize = 0;
    while rest.len() > 0
        invariant
            n == orig.len(),
            i + rest@.len() == orig.len(),
            rest@ == orig.skip(i as int),
            out@ == orig.take(i as int).filter(|g: DuplicateGroup| g.instances@.len() >= min_instances),
        decreases rest@.len(),
    {
        assert(orig.take(i + 1) =~= orig.take(i as int).push(orig[i as int]));
        assert(orig.take(i + 1).drop_last() =~= orig.take(i as int));
        let g = rest.remove(0);
        assert(g == orig[i as int]);
        assert(rest@ =~= orig.skip(i + 1));
        if g.instances.len() as u64 >= min_instances as u64 {
            out.push(g);
        }
        assert(out@ =~= orig.take(i + 1).filter(|g: DuplicateGroup| g.instances@.len() >= min_instances)) by {
            reveal(Seq::filter);
        }
        i += 1;
    }
    assert(orig.take(i as int) =~= orig);
    out
}

/// Index the candidates of all files for cross-file duplicate detection:
/// each at its file and function index, with its fingerprint as its only
/// structure token.
pub fn index_candidates(results: &[SingleFileResult], min_matches: u32, min_loc: u32, include_anonymous: bool) -> (r: DuplicateIndex)
    requires
        results@.len() <= u32::MAX + 1,
        forall|f: int| 0 <= f < results@.len() ==> (#[trigger] results@[f]).functions@.len() <= u32::MAX + 1,
        all_candidates(results@, min_loc, include_anonymous).len() < usize::MAX,
    ensures
        r.wf(),
        r.threshold() == (if min_matches > 64 { 64 } else { min_matches }),
        signatures_of(r.sigs(), all_candidates(results@, min_loc, include_anonymous)),
{
    let ghost rs = results@;
    let mut index = DuplicateIndex::new(min_matches);
    let mut f: usize = 0;
    while f < results.len()
        invariant
            rs == results@,
            rs.len() <= u32::MAX + 1,
            forall|k: int| 0 <= k < rs.len() ==> (#[trigger] rs[k]).functions@.len() <= u32::MAX + 1,
            all_candidates(rs, min_loc, include_anonymous).len() < usize::MAX,
            0 <= f <= rs.len(),
            index.wf(),
            index.threshold() == (if min_matches > 64 { 64 } else { min_matches }),
            signatures_of(index.sigs(), all_candidates(rs.take(f as int), min_loc, include_anonymous)),
        decreases rs.len() - f,
    {
        let fns = &results[f].functions;
        let ghost before = all_candidates(rs.take(f as int), min_loc, include_anonymous);
        proof {
            assert(rs.take(f + 1).drop_last() =~= rs.take(f as int));
            assert(rs.take(f + 1).last() == rs[f as int]);
            lemma_all_candidates_prefix(rs, f + 1, min_loc, include_anonymous);
            assert(all_candidates(rs.take(f + 1), min_loc, include_anonymous)
                == before + file_candidates(f as int, rs[f as int].functions@, min_loc, include_anonymous));
        }
        let mut j: usize = 0;
        while j < fns.len()
            invariant
                rs == results@,
                0 <= f < rs.len(),
                rs.len() <= u32::MAX + 1,
                fns@ == rs[f as int].functions@,
                fns@.len() <= u32::MAX + 1,
                before == all_candidates(rs.take(f as int), min_loc, include_anonymous),
                before.len() + file_candidates(f as int, fns@, min_loc, include_anonymous).len() < usize::MAX,
                0 <= j <= fns@.len(),
                index.wf(),
                index.threshold() == (if min_matches > 64 { 64 } else { min_matches }),
                signatures_of(index.sigs(), before + file_candidates(f as int, fns@.take(j as int), min_loc, include_anonymous)),
            decreases fns@.len() - j,
        {
            let func = &fns[j];
            let ghost prev_cands = before + file_candidates(f as int, fns@.take(j as int), min_loc, include_anonymous);
            proof {
                assert(fns@.take(j + 1).drop_last() =~= fns@.take(j as int));
                assert(fns@.take(j + 1).last() == fns@[j as int]);
                lemma_file_candidates_prefix(f as int, fns@, j + 1, min_loc, include_anonymous);
            }
            if duplicate_candidate(func, min_loc, include_anonymous) {
                let location = FunctionLocation { file_idx: f as u32, fn_idx: j as u32 };
                let tokens: Vec<u64> = vec![func.fingerprint];
                assert(tokens@ =~= seq![func.fingerprint]);
                let ghost prev = index.sigs();
                index.add(location, func.fingerprint, tokens.as_slice());
                proof {
                    let cands = before + file_candidates(f as int, fns@.take(j + 1), min_loc, include_anonymous);
                    assert(cands =~= prev_cands.push((location, func.fingerprint)));
                    assert forall|i: int| 0 <= i < index.sigs().len() implies {
                        &&& (#[trigger] index.sigs()[i]).location == cands[i].0
                        &&& index.sigs()[i].fingerprint == cands[i].1
                        &&& index.sigs()[i].minhash@ == spec_minhash(seq![cands[i].1])
                    } by {
                        if i < prev.len() {
                            assert(index.sigs()[i] == index.sigs().drop_last()[i]);
                            assert(cands[i] == prev_cands[i]);
                        }
                    }
                }
            } else {
                proof {
                    assert(before + file_candidates(f as int, fns@.take(j + 1), min_loc, include_anonymous) =~= prev_cands);
                }
            }
            j += 1;
        }
        proof {
            assert(fns@.take(j as int) =~= fns@);
            assert(all_candidates(rs.take(f + 1), min_loc, include_anonymous)
                =~= before + file_candidates(f as int, fns@, min_loc, include_anonymous));
        }
        f += 1;
    }
    proof {
        assert(rs.take(f as int) =~= rs);
    }
    index
}

/// The fingerprints of a file's candidates, each once, in order of first
/// occurrence.
pub open spec fn candidate_fingerprints(fns: Seq<FunctionData>, min_loc: u32, include_anonymous: bool) -> Seq<u64>
    decreases fns.len(),
{
    if fns.len() == 0 {
        Seq::empty()
    } else {
        let f = candidate_fingerprints(fns.drop_last(), min_loc, include_anonymous);
        let last = fns.last();
        if spec_duplicate_candidate(last, min_loc, include_anonymous) && !f.contains(last.fingerprint) {
            f.push(last.fingerprint)
        } else {
            f
        }
    }
}

/// The indices of a file's candidates with a fingerprint, in order.
pub open spec fn members_with(fns: Seq<FunctionData>, fp: u64, min_loc: u32, include_anonymous: bool) -> Seq<usize>
    decreases fns.len(),
{
    if fns.len() == 0 {
        Seq::empty()
    } else {
        let m = members_with(fns.drop_last(), fp, min_loc, include_anonymous);
        let last = fns.last();
        if spec_duplicate_candidate(last, min_loc, include_anonymous) && last.fingerprint == fp {
            m.push((fns.len() - 1) as usize)
        } else {
            m
        }
    }
}

/// A fingerprint that at least `min_instances` candidates share.
pub open spec fn shared_enough(fns: Seq<FunctionData>, min_instances: u32, min_loc: u32, include_anonymous: bool) -> spec_fn(u64) -> bool {
    |fp: u64| members_with(fns, fp, min_loc, include_anonymous).len() >= min_instances
}

/// The fingerprints of the duplicate groups within a file, in order of
/// first occurrence.
pub open spec fn file_group_fingerprints(fns: Seq<FunctionData>, min_instances: u32, min_loc: u32, include_anonymous: bool) -> Seq<u64> {
    candidate_fingerprints(fns, min_loc, include_anonymous).filter(shared_enough(fns, min_instances, min_loc, include_anonymous))
}

proof fn lemma_candidate_fingerprints(fns: Seq<FunctionData>, fp: u64, min_loc: u32, include_anonymous: bool)
    ensures
        candidate_fingerprints(fns, min_loc, include_anonymous).contains(fp) <==> exists|j: int|
            0 <= j < fns.len() && spec_duplicate_candidate(fns[j], min_loc, include_anonymous) && fns[j].fingerprint == fp,
    decreases fns.len(),
{
    if fns.len() > 0 {
        let prev = fns.drop_last();
        let last = fns.last();
        lemma_candidate_fingerprints(prev, fp, min_loc, include_anonymous);
        let cf = candidate_fingerprints(prev, min_loc, include_anonymous);
        assert(cf.push(last.fingerprint)[cf.len() as int] == last.fingerprint);
        if cf.contains(fp) {
            let k = choose|k: int| 0 <= k < cf.len() && cf[k] == fp;
            assert(cf.push(last.fingerprint)[k] == fp);
        }
        if cf.push(last.fingerprint).contains(fp) && fp != last.fingerprint {
            let k = choose|k: int| 0 <= k < cf.len() + 1 && cf.push(last.fingerprint)[k] == fp;
            assert(cf[k] == fp);
        }
        if spec_duplicate_candidate(last, min_loc, include_anonymous) && last.fingerprint == fp {
            assert(fns[fns.len() - 1] == last);
        }
        if exists|j: int| 0 <= j < fns.len() && spec_duplicate_candidate(fns[j], min_loc, include_anonymous) && fns[j].fingerprint == fp {
            let j = choose|j: int| 0 <= j < fns.len() && spec_duplicate_candidate(fns[j], min_loc, include_anonymous) && fns[j].fingerprint == fp;
            if j < prev.len() {
                assert(prev[j] == fns[j]);
            }
        }
        if exists|j: int| 0 <= j < prev.len() && spec_duplicate_candidate(prev[j], min_loc, include_anonymous) && prev[j].fingerprint == fp {
            let j = choose|j: int| 0 <= j < prev.len() && spec_duplicate_candidate(prev[j], min_loc, include_anonymous) && prev[j].fingerprint == fp;
            assert(fns[j] == prev[j]);
        }
    }
}

/// The duplicate groups within one file: for each fingerprint that at least
/// `min_instances` candidates share, in order of first occurrence, the
/// indices of those candidates in order.
pub fn within_file_groups(functions: &[FunctionData], min_instances: u32, min_loc: u32, include_anonymous: bool) -> (r: Vec<(u64, Vec<usize>)>)
    ensures
        r@.len() == file_group_fingerprints(functions@, min_instances, min_loc, include_anonymous).len(),
        forall|k: int| 0 <= k < r@.len() ==> {
            &&& (#[trigger] r@[k]).0 == file_group_fingerprints(functions@, min_instances, min_loc, include_anonymous)[k]
            &&& r@[k].1@ == members_with(functions@, r@[k].0, min_loc, include_anonymous)
        },
{
    let ghost fns = functions@;
    let ghost pred = shared_enough(fns, min_instances, min_loc, include_anonymous);
    let mut groups: Vec<(u64, Vec<usize>)> = Vec::new();
    let mut i: usize = 0;
    while i < functions.len()
        invariant
            fns == functions@,
            pred == shared_enough(fns, min_instances, min_loc, include_anonymous),
            0 <= i <= fns.len(),
            groups@.len() == candidate_fingerprints(fns.take(i as int), min_loc, include_anonymous).filter(pred).len(),
            forall|k: int| 0 <= k < groups@.len() ==> {
                &&& (#[trigger] groups@[k]).0 == candidate_fingerprints(fns.take(i as int), min_loc, include_anonymous).filter(pred)[k]
                &&& groups@[k].1@ == members_with(fns, groups@[k].0, min_loc, include_anonymous)
            },
        decreases fns.len() - i,
    {
        let ghost prev = fns.take(i as int);
        let ghost cur = fns.take(i + 1);
        assert(cur.drop_last() =~= prev);
        assert(cur.last() == fns[i as int]);
        let ghost filtered = candidate_fingerprints(prev, min_loc, include_anonymous).filter(pred);
        if duplicate_candidate(&functions[i], min_loc, include_anonymous) {
            let fp = functions[i].fingerprint;
            let mut seen = false;
            let mut j: usize = 0;
            while j < i
                invariant
                    fns == functions@,
                    0 <= j <= i < fns.len(),
                    fp == fns[i as int].fingerprint,
                    seen <==> exists|q: int| 0 <= q < j && spec_duplicate_candidate(fns[q], min_loc, include_anonymous) && fns[q].fingerprint == fp,
                decreases i - j,
            {
                if duplicate_candidate(&functions[j], min_loc, include_anonymous) && functions[j].fingerprint == fp {
                    seen = true;
                }
                j += 1;
            }
            proof {
                lemma_candidate_fingerprints(prev, fp, min_loc, include_anonymous);
                if exists|q: int| 0 <= q < i && spec_duplicate_candidate(fns[q], min_loc, include_anonymous) && fns[q].fingerprint == fp {
                    let q = choose|q: int| 0 <= q < i && spec_duplicate_candidate(fns[q], min_loc, include_anonymous) && fns[q].fingerprint == fp;
                    assert(prev[q] == fns[q]);
                }
                if exists|q: int| 0 <= q < prev.len() && spec_duplicate_candidate(prev[q], min_loc, include_anonymous) && prev[q].fingerprint == fp {
                    let q = choose|q: int| 0 <= q < prev.len() && spec_duplicate_candidate(prev[q], min_loc, include_anonymous) && prev[q].fingerprint == fp;
                    assert(prev[q] == fns[q]);
                }
            }
            if !seen {
                let mut members: Vec<usize> = Vec::new();
                let mut q: usize = 0;
                while q < functions.len()
                    invariant
                        fns == functions@,
                        0 <= q <= fns.len(),
                        members@ == members_with(fns.take(q as int), fp, min_loc, include_anonymous),
                    decreases fns.len() - q,
                {
                    proof {
                        assert(fns.take(q + 1).drop_last() =~= fns.take(q as int));
                        assert(fns.take(q + 1).last() == fns[q as int]);
                    }
                    if duplicate_candidate(&functions[q], min_loc, include_anonymous) && functions[q].fingerprint == fp {
                        members.push(q);
                    }
                    q += 1;
                }
                proof {
                    assert(fns.take(q as int) =~= fns);
                }
                assert(candidate_fingerprints(cur, min_loc, include_anonymous) == candidate_fingerprints(prev, min_loc, include_anonymous).push(fp));
                assert(candidate_fingerprints(prev, min_loc, include_anonymous).push(fp).drop_last() =~= candidate_fingerprints(prev, min_loc, include_anonymous));
                assert(pred(fp) == (members@.len() >= min_instances));
                if members.len() >= min_instances as usize {
                    groups.push((fp, members));
                    proof {
                        reveal(Seq::filter);
                        assert(candidate_fingerprints(cur, min_loc, include_anonymous).filter(pred) =~= filtered.push(fp));
                    }
                } else {
                    proof {
                        reveal(Seq::filter);
                        assert(candidate_fingerprints(cur, min_loc, include_anonymous).filter(pred) =~= filtered);
                    }
                }
            } else {
                assert(candidate_fingerprints(cur, min_loc, include_anonymous) == candidate_fingerprints(prev, min_loc, include_anonymous));
            }
        } else {
            assert(candidate_fingerprints(cur, min_loc, include_anonymous) == candidate_fingerprints(prev, min_loc, include_anonymous));
        }
        i += 1;
    }
    proof {
        assert(fns.take(i as int) =~= fns);
    }
    groups
}

/// The reasons to refactor a function, in order: its cyclomatic complexity
/// when above 5 (high above 10), its cognitive complexity above 15, more
/// than 50 lines, and a depth above 4.
pub open spec fn reason_parts(cc: u32, cognitive: u32, loc: u32, depth: u32) -> Seq<Seq<char>> {
    let a: Seq<Seq<char>> = if cc > 10 {
        seq!["high cyclomatic complexity ("@ + decimal(cc as nat) + ")"@]
    } else if cc > 5 {
        seq!["moderate complexity ("@ + decimal(cc as nat) + ")"@]
    } else {
        Seq::empty()
    };
    let b: Seq<Seq<char>> = if cognitive > 15 { a.push("high cognitive load ("@ + decimal(cognitive as nat) + ")"@) } else { a };
    let c: Seq<Seq<char>> = if loc > 50 { b.push("large function ("@ + decimal(loc as nat) + " lines)"@) } else { b };
    if depth > 4 { c.push("deeply nested (depth "@ + decimal(depth as nat) + ")"@) } else { c }
}

/// Parts joined with a comma and a space between each two.
pub open spec fn join_parts(parts: Seq<Seq<char>>) -> Seq<char>
    decreases parts.len(),
{
    if parts.len() == 0 {
        Seq::empty()
    } else if parts.len() == 1 {
        parts[0]
    } else {
        join_parts(parts.drop_last()) + ", "@ + parts.last()
    }
}

/// The reason given for a refactoring target.
pub open spec fn spec_determine_reason(cc: u32, cognitive: u32, loc: u32, depth: u32) -> Seq<char> {
    let parts = reason_parts(cc, cognitive, loc, depth);
    if parts.len() == 0 { "minor complexity"@ } else { join_parts(parts) }
}

/// Appends a part to a joined list of parts.
fn push_part(joined: &mut String, count: &mut usize, part: &str)
    requires
        *old(count) < usize::MAX,
    ensures
        *final(count) == *old(count) + 1,
        *old(count) == 0 ==> final(joined)@ == old(joined)@ + part@,
        *old(count) > 0 ==> final(joined)@ == old(joined)@ + ", "@ + part@,
{
    if *count > 0 {
        joined.append(", ");
    }
    joined.append(part);
    *count = *count + 1;
}

/// A number between a prefix and a suffix.
fn numbered(prefix: &str, n: u32, suffix: &str) -> (r: String)
    ensures
        r@ == prefix@ + decimal(n as nat) + suffix@,
{
    let mut s = owned(prefix);
    push_decimal(&mut s, n);
    s.append(suffix);
    s
}

/// Why a function is worth refactoring, in words.
pub fn determine_reason(cc: u32, cognitive: u32, loc: u32, depth: u32) -> (r: String)
    ensures
        r@ == spec_determine_reason(cc, cognitive, loc, depth),
{
    let ghost a: Seq<Seq<char>> = if cc > 10 {
        seq!["high cyclomatic complexity ("@ + decimal(cc as nat) + ")"@]
    } else if cc > 5 {
        seq!["moderate complexity ("@ + decimal(cc as nat) + ")"@]
    } else {
        Seq::empty()
    };
    let ghost b: Seq<Seq<char>> = if cognitive > 15 { a.push("high cognitive load ("@ + decimal(cognitive as nat) + ")"@) } else { a };
    let ghost c: Seq<Seq<char>> = if loc > 50 { b.push("large function ("@ + decimal(loc as nat) + " lines)"@) } else { b };
    let ghost d: Seq<Seq<char>> = if depth > 4 { c.push("deeply nested (depth "@ + decimal(depth as nat) + ")"@) } else { c };
    let mut joined = String::new();
    let mut count: usize = 0;
    if cc > 10 {
        let p = numbered("high cyclomatic complexity (", cc, ")");
        push_part(&mut joined, &mut count, p.as_str());
    } else if cc > 5 {
        let p = numbered("moderate complexity (", cc, ")");
        push_part(&mut joined, &mut count, p.as_str());
    }
    assert(count == a.len() && joined@ == join_parts(a)) by {
        if a.len() == 1 {
            assert(joined@ =~= a[0]);
        }
    }
    if cognitive > 15 {
        let p = numbered("high cognitive load (", cognitive, ")");
        push_part(&mut joined, &mut count, p.as_str());
        assert(b.drop_last() =~= a);
    }
    assert(count == b.len() && joined@ == join_parts(b)) by {
        if b.len() == 1 && a.len() == 0 {
            assert(joined@ =~= b[0]);
        }
    }
    if loc > 50 {
        let p = numbered("large function (", loc, " lines)");
        push_part(&mut joined, &mut count, p.as_str());
        assert(c.drop_last() =~= b);
    }
    assert(count == c.len() && joined@ == join_parts(c)) by {
        if c.len() == 1 && b.len() == 0 {
            assert(joined@ =~= c[0]);
        }
    }
    if depth > 4 {
        let p = numbered("deeply nested (depth ", depth, ")");
        push_part(&mut joined, &mut count, p.as_str());
        assert(d.drop_last() =~= c);
    }
    assert(count == d.len() && joined@ == join_parts(d)) by {
        if d.len() == 1 && c.len() == 0 {
            assert(joined@ =~= d[0]);
        }
    }
    if count == 0 {
        owned("minor complexity")
    } else {
        joined
    }
}

/// Whether a function stays in the listing under its filters: complex,
/// large and deeply nested when asked, and at least the given complexity and
/// line count when given.
pub open spec fn spec_function_selected(
    f: FunctionData,
    complex: bool,
    large: bool,
    deep: bool,
    min_complexity: Option<u32>,
    min_loc: Option<u32>,
) -> bool {
    &&& complex ==> spec_is_complex(f.cc, f.loc)
    &&& large ==> f.loc > 50
    &&& deep ==> f.depth > 3
    &&& (min_complexity matches Some(m) ==> f.cc >= m)
    &&& (min_loc matches Some(m) ==> f.loc >= m)
}

/// Whether a function stays in the listing under its filters.
pub fn function_selected(
    f: &FunctionData,
    complex: bool,
    large: bool,
    deep: bool,
    min_complexity: Option<u32>,
    min_loc: Option<u32>,
) -> (r: bool)
    ensures
        r == spec_function_selected(*f, complex, large, deep, min_complexity, min_loc),
{
    if complex && !is_complex(f.cc, f.loc) {
        return false;
    }
    if large && !is_large(f.loc) {
        return false;
    }
    if deep && !is_deeply_nested(f.depth) {
        return false;
    }
    match min_complexity {
        Some(m) => {
            if f.cc < m {
                return false;
            }
        },
        None => {},
    }
    match min_loc {
        Some(m) => {
            if f.loc < m {
                return false;
            }
        },
        None => {},
    }
    true
}

/// Whether the entry at `a` comes before the one at `b` when ordering by
/// key, ascending or descending: by key, and entries with equal keys in
/// their input order.
pub open spec fn precedes(keys: Seq<u64>, descending: bool, a: int, b: int) -> bool {
    if keys[a] == keys[b] {
        a < b
    } else if descending {
        keys[a] > keys[b]
    } else {
        keys[a] < keys[b]
    }
}

/// `order` lists the positions of `keys` in key order, ties kept in their
/// input order.
pub open spec fn sorted_order(keys: Seq<u64>, descending: bool, order: Seq<usize>) -> bool {
    &&& order.len() == keys.len()
    &&& forall|i: int| 0 <= i < order.len() ==> (#[trigger] order[i]) < keys.len()
    &&& forall|i: int, j: int| 0 <= i < j < order.len() ==> precedes(keys, descending, #[trigger] order[i] as int, #[trigger] order[j] as int)
}

fn precedes_exec(keys: &[u64], descending: bool, a: usize, b: usize) -> (r: bool)
    requires
        a < keys@.len(),
        b < keys@.len(),
    ensures
        r == precedes(keys@, descending, a as int, b as int),
{
    if keys[a] == keys[b] {
        a < b
    } else if descending {
        keys[a] > keys[b]
    } else {
        keys[a] < keys[b]
    }
}

/// The positions of `keys` in key order, ascending or descending; entries
/// with equal keys keep their input order (a stable sort).
pub fn order_by_keys(keys: &[u64], descending: bool) -> (r: Vec<usize>)
    ensures
        sorted_order(keys@, descending, r@),
{
    let ghost ks = keys@;
    let mut order: Vec<usize> = Vec::new();
    let mut i: usize = 0;
    while i < keys.len()
        invariant
            ks == keys@,
            0 <= i <= ks.len(),
            order@.len() == i,
            forall|k: int| 0 <= k < order@.len() ==> (#[trigger] order@[k]) < i,
            forall|a: int, b: int| 0 <= a < b < order@.len() ==> precedes(ks, descending, #[trigger] order@[a] as int, #[trigger] order@[b] as int),
        decreases ks.len() - i,
    {
        let mut p: usize = 0;
        while p < order.len() && !precedes_exec(keys, descending, i, order[p])
            invariant
                ks == keys@,
                0 <= i < ks.len(),
                order@.len() == i,
                forall|k: int| 0 <= k < order@.len() ==> (#[trigger] order@[k]) < i,
                0 <= p <= order@.len(),
                forall|k: int| 0 <= k < p ==> precedes(ks, descending, #[trigger] order@[k] as int, i as int),
            decreases order@.len() - p,
        {
            proof {
                assert(order@[p as int] < i);
            }
            p += 1;
        }
        let ghost before = order@;
        assert(forall|k: int| p <= k < before.len() ==> precedes(ks, descending, i as int, #[trigger] before[k] as int)) by {
            if p < before.len() {
                assert forall|k: int| p <= k < before.len() implies precedes(ks, descending, i as int, #[trigger] before[k] as int) by {
                    if k > p {
                        assert(precedes(ks, descending, before[p as int] as int, before[k] as int));
                    }
                }
            }
        }
        order.insert(p, i);
        proof {
            let after = order@;
            assert(after == before.insert(p as int, i));
            assert forall|a: int, b: int| 0 <= a < b < after.len() implies precedes(ks, descending, #[trigger] after[a] as int, #[trigger] after[b] as int) by {
                if b < p {
                    assert(after[a] == before[a] && after[b] == before[b]);
                } else if b == p {
                    assert(after[a] == before[a]);
                } else if a < p {
                    assert(after[a] == before[a] && after[b] == before[b - 1]);
                    assert(precedes(ks, descending, before[a] as int, before[b - 1] as int));
                } else if a == p {
                    assert(after[b] == before[b - 1]);
                } else {
                    assert(after[a] == before[a - 1] && after[b] == before[b - 1]);
                }
            }
            assert forall|k: int| 0 <= k < after.len() implies (#[trigger] after[k]) < i + 1 by {
                if k < p {
                    assert(after[k] == before[k]);
                } else if k > p {
                    assert(after[k] == before[k - 1]);
                }
            }
        }
        i += 1;
    }
    order
}

/// A key order lists each position once: with as many entries as keys, all
/// of them positions of the keys, none twice, it is a permutation.
pub proof fn law_sorted_order_lists_each_once(keys: Seq<u64>, descending: bool, order: Seq<usize>)
    requires
        sorted_order(keys, descending, order),
    ensures
        order.no_duplicates(),
{
    assert forall|i: int, j: int| 0 <= i < order.len() && 0 <= j < order.len() && i != j implies order[i] != order[j] by {
        if i < j {
            assert(precedes(keys, descending, order[i] as int, order[j] as int));
        } else {
            assert(precedes(keys, descending, order[j] as int, order[i] as int));
        }
    }
}

/// Byte-wise lexicographic order; a proper prefix comes first.
pub open spec fn bytes_lt(a: Seq<u8>, b: Seq<u8>) -> bool
    decreases a.len(),
{
    if b.len() == 0 {
        false
    } else if a.len() == 0 {
        true
    } else if a[0] != b[0] {
        a[0] < b[0]
    } else {
        bytes_lt(a.drop_first(), b.drop_first())
    }
}

/// The order of optional names: no name first, then names in the byte order
/// of their UTF-8 encodings.
pub open spec fn name_lt(a: Option<String>, b: Option<String>) -> bool {
    match (a, b) {
        (None, Some(_)) => true,
        (Some(x), Some(y)) => bytes_lt(utf8_bytes(x@), utf8_bytes(y@)),
        _ => false,
    }
}

/// Whether one byte string comes before another.
fn bytes_less(a: &[u8], b: &[u8]) -> (r: bool)
    ensures
        r == bytes_lt(a@, b@),
{
    let mut k: usize = 0;
    assert(a@.skip(0) =~= a@ && b@.skip(0) =~= b@);
    while k < a.len() && k < b.len() && a[k] == b[k]
        invariant
            0 <= k <= a@.len(),
            k <= b@.len(),
            bytes_lt(a@, b@) == bytes_lt(a@.skip(k as int), b@.skip(k as int)),
        decreases a@.len() - k,
    {
        proof {
            assert(a@.skip(k as int).drop_first() =~= a@.skip(k + 1));
            assert(b@.skip(k as int).drop_first() =~= b@.skip(k + 1));
        }
        k += 1;
    }
    proof {
        if k < b@.len() {
            assert(b@.skip(k as int).len() > 0);
            if k < a@.len() {
                assert(a@.skip(k as int)[0] == a@[k as int] && b@.skip(k as int)[0] == b@[k as int]);
            }
        }
    }
    if k == b.len() {
        false
    } else if k == a.len() {
        true
    } else {
        a[k] < b[k]
    }
}

/// Whether one optional name comes before another.
pub fn name_less(a: &Option<String>, b: &Option<String>) -> (r: bool)
    ensures
        r == name_lt(*a, *b),
{
    match (a, b) {
        (None, Some(_)) => true,
        (Some(x), Some(y)) => bytes_less(x.as_str().as_bytes(), y.as_str().as_bytes()),
        _ => false,
    }
}

/// The number of names that come before a name.
pub open spec fn rank_in(names: Seq<Option<String>>, x: Option<String>) -> nat {
    names.filter(|y: Option<String>| name_lt(y, x)).len()
}

/// For each name, how many of the names come before it: ordering by these
/// ranks orders by name, equal names sharing a rank.
pub fn name_ranks(names: &[Option<String>]) -> (r: Vec<u64>)
    requires
        names@.len() <= u64::MAX,
    ensures
        r@.len() == names@.len(),
        forall|i: int| 0 <= i < r@.len() ==> #[trigger] r@[i] == rank_in(names@, names@[i]),
{
    let ghost ns = names@;
    let mut ranks: Vec<u64> = Vec::new();
    let mut i: usize = 0;
    while i < names.len()
        invariant
            ns == names@,
            ns.len() <= u64::MAX,
            0 <= i <= ns.len(),
            ranks@.len() == i,
            forall|k: int| 0 <= k < i ==> #[trigger] ranks@[k] == rank_in(ns, ns[k]),
        decreases ns.len() - i,
    {
        let ghost x = ns[i as int];
        let ghost pred = |y: Option<String>| name_lt(y, x);
        let mut count: u64 = 0;
        let mut j: usize = 0;
        while j < names.len()
            invariant
                ns == names@,
                ns.len() <= u64::MAX,
                0 <= i < ns.len(),
                x == ns[i as int],
                pred == (|y: Option<String>| name_lt(y, x)),
                0 <= j <= ns.len(),
                count == ns.take(j as int).filter(pred).len(),
            decreases ns.len() - j,
        {
            proof {
                reveal(Seq::filter);
                assert(ns.take(j + 1).drop_last() =~= ns.take(j as int));
                assert(ns.take(j + 1).last() == ns[j as int]);
                ns.take(j as int).lemma_filter_len(pred);
            }
            if name_less(&names[j], &names[i]) {
                count = count + 1;
            }
            j += 1;
        }
        proof {
            assert(ns.take(j as int) =~= ns);
        }
        ranks.push(count);
        i += 1;
    }
    ranks
}

proof fn lemma_bytes_lt_irreflexive(a: Seq<u8>)
    ensures
        !bytes_lt(a, a),
    decreases a.len(),
{
    if a.len() > 0 {
        lemma_bytes_lt_irreflexive(a.drop_first());
    }
}

proof fn lemma_bytes_lt_transitive(a: Seq<u8>, b: Seq<u8>, c: Seq<u8>)
    requires
        bytes_lt(a, b),
        bytes_lt(b, c),
    ensures
        bytes_lt(a, c),
    decreases a.len(),
{
    if a.len() > 0 && b.len() > 0 && c.len() > 0 && a[0] == b[0] && b[0] == c[0] {
        lemma_bytes_lt_transitive(a.drop_first(), b.drop_first(), c.drop_first());
    }
}

proof fn lemma_bytes_lt_total(a: Seq<u8>, b: Seq<u8>)
    requires
        !bytes_lt(a, b),
        !bytes_lt(b, a),
    ensures
        a == b,
    decreases a.len(),
{
    if a.len() > 0 && b.len() > 0 {
        lemma_bytes_lt_total(a.drop_first(), b.drop_first());
        assert(a =~= seq![a[0]] + a.drop_first());
        assert(b =~= seq![b[0]] + b.drop_first());
    }
}

proof fn lemma_filter_len_mono(s: Seq<Option<String>>, p: spec_fn(Option<String>) -> bool, q: spec_fn(Option<String>) -> bool)
    requires
        forall|z: Option<String>| #[trigger] p(z) ==> q(z),
    ensures
        s.filter(p).len() <= s.filter(q).len(),
    decreases s.len(),
{
    reveal(Seq::filter);
    if s.len() > 0 {
        lemma_filter_len_mono(s.drop_last(), p, q);
    }
}

proof fn lemma_filter_len_strict(s: Seq<Option<String>>, p: spec_fn(Option<String>) -> bool, q: spec_fn(Option<String>) -> bool, k: int)
    requires
        forall|z: Option<String>| #[trigger] p(z) ==> q(z),
        0 <= k < s.len(),
        q(s[k]),
        !p(s[k]),
    ensures
        s.filter(p).len() < s.filter(q).len(),
    decreases s.len(),
{
    reveal(Seq::filter);
    if k == s.len() - 1 {
        lemma_filter_len_mono(s.drop_last(), p, q);
    } else {
        assert(s.drop_last()[k] == s[k]);
        lemma_filter_len_strict(s.drop_last(), p, q, k);
    }
}

/// Ranks order names: a name that comes before another has the smaller
/// rank, and names that neither comes before the other share a rank, so
/// ordering by `name_ranks` is ordering by name.
pub proof fn law_name_ranks_follow_names(names: Seq<Option<String>>, i: int, j: int)
    requires
        0 <= i < names.len(),
        0 <= j < names.len(),
    ensures
        name_lt(names[i], names[j]) ==> rank_in(names, names[i]) < rank_in(names, names[j]),
        !name_lt(names[i], names[j]) && !name_lt(names[j], names[i]) ==> rank_in(names, names[i]) == rank_in(names, names[j]),
{
    let x = names[i];
    let y = names[j];
    let px = |z: Option<String>| name_lt(z, x);
    let py = |z: Option<String>| name_lt(z, y);
    if name_lt(x, y) {
        assert forall|z: Option<String>| #[trigger] px(z) implies py(z) by {
            match (z, x, y) {
                (Some(zz), Some(xx), Some(yy)) => {
                    lemma_bytes_lt_transitive(utf8_bytes(zz@), utf8_bytes(xx@), utf8_bytes(yy@));
                },
                _ => {},
            }
        }
        match x {
            Some(xx) => lemma_bytes_lt_irreflexive(utf8_bytes(xx@)),
            None => {},
        }
        lemma_filter_len_strict(names, px, py, i);
    }
    if !name_lt(x, y) && !name_lt(y, x) {
        match (x, y) {
            (Some(xx), Some(yy)) => {
                lemma_bytes_lt_total(utf8_bytes(xx@), utf8_bytes(yy@));
            },
            _ => {},
        }
        assert forall|z: Option<String>| #[trigger] px(z) implies py(z) by {}
        assert forall|z: Option<String>| #[trigger] py(z) implies px(z) by {}
        lemma_filter_len_mono(names, px, py);
        lemma_filter_len_mono(names, py, px);
    }
}

/// Whether a file stays in the analysis report: a maintainability index of at
/// least `min_mi` when given, and a largest complexity and depth of at most
/// the given limits.
pub open spec fn spec_file_selected(r: SingleFileResult, min_mi: Option<u32>, max_complexity: Option<u32>, max_depth: Option<u32>) -> bool {
    &&& (min_mi matches Some(m) ==> r.mi >= m)
    &&& (max_complexity matches Some(m) ==> r.cc_max <= m)
    &&& (max_depth matches Some(m) ==> r.depth_max <= m)
}

/// Whether a file stays in the analysis report.
pub fn file_selected(r: &SingleFileResult, min_mi: Option<u32>, max_complexity: Option<u32>, max_depth: Option<u32>) -> (b: bool)
    ensures
        b == spec_file_selected(*r, min_mi, max_complexity, max_depth),
{
    let mi_ok = match min_mi {
        Some(m) => r.mi as u32 >= m,
        None => true,
    };
    let cc_ok = match max_complexity {
        Some(m) => r.cc_max <= m,
        None => true,
    };
    let depth_ok = match max_depth {
        Some(m) => r.depth_max <= m,
        None => true,
    };
    mi_ok && cc_ok && depth_ok
}

/// The sums over a list of file results from which the summary row of the
/// report is drawn.
#[derive(Debug, Clone, Copy, PartialEq, Eq, Structural)]
pub struct FileTotals {
    pub count: usize,
    pub total_loc: u32,
    pub total_cc_max: u32,
    pub total_cognitive_max: u32,
    pub total_mi: u32,
    pub total_depth: u32,
    pub total_dups: u32,
    pub total_functions: u32,
}

/// The sum of one counter over the files.
pub open spec fn file_sum(results: Seq<SingleFileResult>, field: spec_fn(SingleFileResult) -> u32) -> nat
    decreases results.len(),
{
    if results.len() == 0 {
        0
    } else {
        file_sum(results.drop_last(), field) + field(results.last()) as nat
    }
}

pub open spec fn loc_of() -> spec_fn(SingleFileResult) -> u32 { |r: SingleFileResult| r.loc }
pub open spec fn cc_max_of() -> spec_fn(SingleFileResult) -> u32 { |r: SingleFileResult| r.cc_max }
pub open spec fn cognitive_max_of() -> spec_fn(SingleFileResult) -> u32 { |r: SingleFileResult| r.cognitive_max }
pub open spec fn mi_of() -> spec_fn(SingleFileResult) -> u32 { |r: SingleFileResult| r.mi as u32 }
pub open spec fn depth_max_of() -> spec_fn(SingleFileResult) -> u32 { |r: SingleFileResult| r.depth_max }
pub open spec fn dup_count_of() -> spec_fn(SingleFileResult) -> u32 { |r: SingleFileResult| r.dup_count }
pub open spec fn function_count_of() -> spec_fn(SingleFileResult) -> u32 { |r: SingleFileResult| r.function_count }

/// Whether every sum over the files fits in 32 bits.
pub open spec fn file_totals_fit(results: Seq<SingleFileResult>) -> bool {
    &&& file_sum(results, loc_of()) <= u32::MAX
    &&& file_sum(results, cc_max_of()) <= u32::MAX
    &&& file_sum(results, cognitive_max_of()) <= u32::MAX
    &&& file_sum(results, mi_of()) <= u32::MAX
    &&& file_sum(results, depth_max_of()) <= u32::MAX
    &&& file_sum(results, dup_count_of()) <= u32::MAX
    &&& file_sum(results, function_count_of()) <= u32::MAX
}

/// The totals of a list of file results.
pub open spec fn spec_file_totals(results: Seq<SingleFileResult>) -> FileTotals {
    FileTotals {
        count: results.len() as usize,
        total_loc: file_sum(results, loc_of()) as u32,
        total_cc_max: file_sum(results, cc_max_of()) as u32,
        total_cognitive_max: file_sum(results, cognitive_max_of()) as u32,
        total_mi: file_sum(results, mi_of()) as u32,
        total_depth: file_sum(results, depth_max_of()) as u32,
        total_dups: file_sum(results, dup_count_of()) as u32,
        total_functions: file_sum(results, function_count_of()) as u32,
    }
}

proof fn lemma_file_sum_prefix(results: Seq<SingleFileResult>, field: spec_fn(SingleFileResult) -> u32, i: int)
    requires
        0 <= i <= results.len(),
    ensures
        file_sum(results.take(i), field) <= file_sum(results, field),
    decreases results.len() - i,
{
    if i < results.len() {
        lemma_file_sum_prefix(results, field, i + 1);
        assert(results.take(i + 1).drop_last() =~= results.take(i));
    } else {
        assert(results.take(i) =~= results);
    }
}

impl FileTotals {
    /// The totals over the files, in one pass.
    pub fn from_results(results: &[SingleFileResult]) -> (t: Self)
        requires
            file_totals_fit(results@),
        ensures
            t == spec_file_totals(results@),
    {
        let ghost rs = results@;
        let mut t = FileTotals {
            count: 0,
            total_loc: 0,
            total_cc_max: 0,
            total_cognitive_max: 0,
            total_mi: 0,
            total_depth: 0,
            total_dups: 0,
            total_functions: 0,
        };
        let mut i: usize = 0;
        while i < results.len()
            invariant
                rs == results@,
                file_totals_fit(rs),
                0 <= i <= rs.len(),
                t == spec_file_totals(rs.take(i as int)),
            decreases rs.len() - i,
        {
            let ghost cur = rs.take(i + 1);
            proof {
                assert(cur.drop_last() =~= rs.take(i as int));
                assert(cur.last() == rs[i as int]);
                lemma_file_sum_prefix(rs, loc_of(), i + 1);
                lemma_file_sum_prefix(rs, cc_max_of(), i + 1);
                lemma_file_sum_prefix(rs, cognitive_max_of(), i + 1);
                lemma_file_sum_prefix(rs, mi_of(), i + 1);
                lemma_file_sum_prefix(rs, depth_max_of(), i + 1);
                lemma_file_sum_prefix(rs, dup_count_of(), i + 1);
                lemma_file_sum_prefix(rs, function_count_of(), i + 1);
            }
            let r = &results[i];
            t.count = t.count + 1;
            t.total_loc = t.total_loc + r.loc;
            t.total_cc_max = t.total_cc_max + r.cc_max;
            t.total_cognitive_max = t.total_cognitive_max + r.cognitive_max;
            t.total_mi = t.total_mi + r.mi as u32;
            t.total_depth = t.total_depth + r.depth_max;
            t.total_dups = t.total_dups + r.dup_count;
            t.total_functions = t.total_functions + r.function_count;
            i += 1;
        }
        assert(rs.take(i as int) =~= rs);
        t
    }
}

/// The topics of the metric explanations.
#[derive(Debug, Clone, Copy, PartialEq, Eq, Structural)]
pub enum MetricTopic {
    Maintainability,
    Cyclomatic,
    Lines,
    Depth,
    Duplication,
    Fan,
}

/// The topic that a key names.
pub open spec fn spec_metric_topic(key: Seq<char>) -> Option<MetricTopic> {
    if key == "mi"@ || key == "maintainability"@ || key == "maintainability-index"@ {
        Some(MetricTopic::Maintainability)
    } else if key == "cc"@ || key == "cyclomatic"@ || key == "cyclomatic-complexity"@ {
        Some(MetricTopic::Cyclomatic)
    } else if key == "loc"@ || key == "lines"@ {
        Some(MetricTopic::Lines)
    } else if key == "depth"@ || key == "nesting"@ {
        Some(MetricTopic::Depth)
    } else if key == "dup"@ || key == "duplicates"@ || key == "duplication"@ {
        Some(MetricTopic::Duplication)
    } else if key == "fan"@ || key == "fan-in"@ || key == "fan-out"@ {
        Some(MetricTopic::Fan)
    } else {
        None
    }
}

impl MetricTopic {
    /// The topic that a key names, if any.
    pub fn from_key(key: &str) -> (r: Option<MetricTopic>)
        ensures
            r == spec_metric_topic(key@),
    {
        if str_eq(key, "mi") || str_eq(key, "maintainability") || str_eq(key, "maintainability-index") {
            Some(MetricTopic::Maintainability)
        } else if str_eq(key, "cc") || str_eq(key, "cyclomatic") || str_eq(key, "cyclomatic-complexity") {
            Some(MetricTopic::Cyclomatic)
        } else if str_eq(key, "loc") || str_eq(key, "lines") {
            Some(MetricTopic::Lines)
        } else if str_eq(key, "depth") || str_eq(key, "nesting") {
            Some(MetricTopic::Depth)
        } else if str_eq(key, "dup") || str_eq(key, "duplicates") || str_eq(key, "duplication") {
            Some(MetricTopic::Duplication)
        } else if str_eq(key, "fan") || str_eq(key, "fan-in") || str_eq(key, "fan-out") {
            Some(MetricTopic::Fan)
        } else {
            None
        }
    }
}

} // verus!
