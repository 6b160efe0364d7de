//! Gathering per-file results into flat arrays, building the cross-file
//! duplicate index from them, and choosing which paths to skip.
use vstd::prelude::*;
use crate::data::{
    FileResults, FunctionData, FunctionResults, SingleFileResult, StringInterner, delimits, lemma_delimits_append,
    name_prefix, utf8_bytes,
};
use crate::dup::{DuplicateIndex, FunctionLocation, spec_minhash};
use crate::text::{str_in, table_has};

verus! {

/// Every function of every file, each with the index of its file, in order.
pub open spec fn flat_functions(results: Seq<SingleFileResult>) -> Seq<(int, FunctionData)>
    decreases results.len(),
{
    if results.len() == 0 {
        Seq::empty()
    } else {
        flat_functions(results.drop_last()) + results.last().functions@.map_values(
            |f: FunctionData| ((results.len() - 1) as int, f),
        )
    }
}

/// A name can be interned: it fits in memory, and when it is longer than
/// 65535 bytes its first 65535 bytes end on a character boundary.
pub open spec fn internable(name: Seq<char>) -> bool {
    &&& utf8_bytes(name).len() <= usize::MAX
    &&& utf8_bytes(name).len() <= 65535 || vstd::utf8::is_char_boundary(utf8_bytes(name), 65535)
}

/// The function's name, if any, can be interned.
pub open spec fn name_internable(f: FunctionData) -> bool {
    match f.name {
        Some(n) => internable(n@),
        None => true,
    }
}

/// Function `k` of the flat arrays is `f` of file `file`, with its name
/// interned where the interner can address it.
pub open spec fn function_row(fns: &FunctionResults, interner: Seq<char>, k: int, file: int, f: FunctionData) -> bool {
    &&& fns.file_idx@[k] == file as u32
    &&& fns.start_line@[k] == f.start_line
    &&& fns.end_line@[k] == f.end_line
    &&& fns.loc@[k] == f.loc
    &&& fns.cc@[k] == f.cc
    &&& fns.cognitive@[k] == f.cognitive
    &&& fns.depth@[k] == f.depth
    &&& fns.fingerprint@[k] == f.fingerprint
    &&& f.name is None ==> fns.name_offset@[k] == 0 && fns.name_len@[k] == 0
    &&& f.name matches Some(n) ==> (fns.name_len@[k] == (if utf8_bytes(n@).len() <= 65535 { utf8_bytes(n@).len() } else { 65535 })
        && (utf8_bytes(interner).len() <= u32::MAX ==> delimits(interner, fns.name_offset@[k] as int, fns.name_len@[k] as int, name_prefix(n@))))
}

/// File `i` of the flat arrays holds the fields of result `r`.
pub open spec fn file_row(files: &FileResults, i: int, r: SingleFileResult) -> bool {
    &&& files.paths@[i]@ == r.path@
    &&& files.loc@[i] == r.loc
    &&& files.cc_max@[i] == r.cc_max
    &&& files.cc_sum@[i] == r.cc_sum
    &&& files.cognitive_max@[i] == r.cognitive_max
    &&& files.cognitive_sum@[i] == r.cognitive_sum
    &&& files.depth_max@[i] == r.depth_max
    &&& files.imports@[i] == r.imports
    &&& files.exports@[i] == r.exports
    &&& files.mi@[i] == r.mi
    &&& files.function_count@[i] == r.function_count
    &&& files.dup_count@[i] == r.dup_count
}

/// Collect results into flat arrays: one row per file, one row per function
/// (with its file's index), and every function name interned.
pub fn collect_results(results: Vec<SingleFileResult>) -> (r: (FileResults, FunctionResults, StringInterner))
    requires
        results@.len() * 256 <= usize::MAX,
        forall|i: int, j: int| 0 <= i < results@.len() && 0 <= j < results@[i].functions@.len()
            ==> name_internable(#[trigger] results@[i].functions@[j]),
    ensures
        r.0.wf(),
        r.0.paths@.len() == results@.len(),
        forall|i: int| 0 <= i < results@.len() ==> #[trigger] file_row(&r.0, i, results@[i]),
        r.1.wf(),
        r.1.file_idx@.len() == flat_functions(results@).len(),
        forall|k: int| 0 <= k < flat_functions(results@).len() ==> #[trigger] function_row(&r.1, r.2@, k, flat_functions(results@)[k].0, flat_functions(results@)[k].1),
{
    let mut file_results = FileResults::with_capacity(results.len());
    let mut fn_results = FunctionResults::with_capacity(results.len() * 10);
    let mut interner = StringInterner::with_capacity(results.len() * 256);
    let mut file_idx: usize = 0;
    while file_idx < results.len()
        invariant
            0 <= file_idx <= results@.len(),
            forall|i: int, j: int| 0 <= i < results@.len() && 0 <= j < results@[i].functions@.len()
                ==> name_internable(#[trigger] results@[i].functions@[j]),
            file_results.wf(),
            file_results.paths@.len() == file_idx,
            forall|i: int| 0 <= i < file_idx ==> #[trigger] file_row(&file_results, i, results@[i]),
            fn_results.wf(),
            fn_results.file_idx@.len() == flat_functions(results@.take(file_idx as int)).len(),
            forall|k: int| 0 <= k < fn_results.file_idx@.len() ==> #[trigger] function_row(&fn_results, interner@, k, flat_functions(results@.take(file_idx as int))[k].0, flat_functions(results@.take(file_idx as int))[k].1),
        decreases results@.len() - file_idx,
    {
        let result = &results[file_idx];
        let ghost prev_files = file_results;
        file_results.push(
            result.path.clone(),
            result.loc,
            result.cc_max,
            result.cc_sum,
            result.cognitive_max,
            result.cognitive_sum,
            result.depth_max,
            result.imports,
            result.exports,
            result.mi,
            result.function_count,
            result.dup_count,
        );
        proof {
            assert forall|i: int| 0 <= i < file_idx + 1 implies #[trigger] file_row(&file_results, i, results@[i]) by {
                if i < file_idx {
                    assert(file_row(&prev_files, i, results@[i]));
                }
            }
        }
        let ghost base = flat_functions(results@.take(file_idx as int));
        let ghost fs = result.functions@;
        let mut j: usize = 0;
        while j < result.functions.len()
            invariant
                0 <= file_idx < results@.len(),
                result == &results@[file_idx as int],
                fs == result.functions@,
                0 <= j <= fs.len(),
                forall|q: int| 0 <= q < fs.len() ==> name_internable(#[trigger] fs[q]),
                fn_results.wf(),
                fn_results.file_idx@.len() == base.len() + j,
                forall|k: int| 0 <= k < base.len() ==> #[trigger] function_row(&fn_results, interner@, k, base[k].0, base[k].1),
                forall|q: int| 0 <= q < j ==> #[trigger] function_row(&fn_results, interner@, base.len() + q, file_idx as int, fs[q]),
            decreases fs.len() - j,
        {
            let func = &result.functions[j];
            assert(name_internable(*func)) by {
                assert(fs[j as int] == *func);
            }
            let ghost before = interner@;
            let ghost prev_fns = fn_results;
            let (name_offset, name_len) = match &func.name {
                Some(name) => interner.intern(name.as_str()),
                None => (0, 0),
            };
            fn_results.push(
                file_idx as u32,
                name_offset,
                name_len,
                func.start_line,
                func.end_line,
                func.loc,
                func.cc,
                func.cognitive,
                func.depth,
                func.fingerprint,
            );
            proof {
                let added = interner@.subrange(before.len() as int, interner@.len() as int);
                assert(interner@ =~= before + added);
                lemma_bytes_grow(before, added);
                assert forall|k: int| 0 <= k < base.len() implies #[trigger] function_row(&fn_results, interner@, k, base[k].0, base[k].1) by {
                    assert(function_row(&prev_fns, before, k, base[k].0, base[k].1));
                    if base[k].1.name is Some && utf8_bytes(interner@).len() <= u32::MAX {
                        lemma_delimits_append(before, prev_fns.name_offset@[k] as int, prev_fns.name_len@[k] as int, name_prefix(base[k].1.name->0@), added);
                    }
                }
                assert forall|q: int| 0 <= q < j + 1 implies #[trigger] function_row(&fn_results, interner@, base.len() + q, file_idx as int, fs[q]) by {
                    if q < j {
                        assert(function_row(&prev_fns, before, base.len() + q, file_idx as int, fs[q]));
                        if fs[q].name is Some && utf8_bytes(interner@).len() <= u32::MAX {
                            lemma_delimits_append(before, prev_fns.name_offset@[base.len() + q] as int, prev_fns.name_len@[base.len() + q] as int, name_prefix(fs[q].name->0@), added);
                        }
                    } else {
                        assert(fs[q] == *func);
                    }
                }
            }
            j += 1;
        }
        proof {
            let next = results@.take(file_idx + 1);
            assert(next.drop_last() =~= results@.take(file_idx as int));
            assert(next.last() == results@[file_idx as int]);
            let flat = flat_functions(next);
            assert(flat =~= base + fs.map_values(|f: FunctionData| (file_idx as int, f)));
            assert forall|k: int| 0 <= k < fn_results.file_idx@.len() implies #[trigger] function_row(&fn_results, interner@, k, flat[k].0, flat[k].1) by {
                if k < base.len() {
                    assert(flat[k] == base[k]);
                } else {
                    let q = k - base.len();
                    assert(flat[k] == (file_idx as int, fs[q]));
                    assert(function_row(&fn_results, interner@, base.len() + q, file_idx as int, fs[q]));
                }
            }
        }
        file_idx += 1;
    }
    proof {
        assert(results@.take(file_idx as int) =~= results@);
    }
    (file_results, fn_results, interner)
}

/// Appending text does not shrink its encoding.
proof fn lemma_bytes_grow(a: Seq<char>, b: Seq<char>)
    ensures
        utf8_bytes(a).len() <= utf8_bytes(a + b).len(),
{
    crate::data::lemma_utf8_concat(a, b);
}

/// Build the cross-file duplicate index from the function rows: each
/// function is indexed at its row with its fingerprint as its only token.
pub fn build_duplicate_index(fn_results: &FunctionResults, min_matches: u32) -> (r: DuplicateIndex)
    requires
        fn_results.wf(),
        fn_results.file_idx@.len() < usize::MAX,
    ensures
        r.wf(),
        r.threshold() == (if min_matches > 64 { 64 } else { min_matches }),
        r.sigs().len() == fn_results.file_idx@.len(),
        forall|i: int| 0 <= i < r.sigs().len() ==> {
            &&& (#[trigger] r.sigs()[i]).location == FunctionLocation { file_idx: fn_results.file_idx@[i], fn_idx: i as u32 }
            &&& r.sigs()[i].fingerprint == fn_results.fingerprint@[i]
            &&& r.sigs()[i].minhash@ == spec_minhash(seq![fn_results.fingerprint@[i]])
        },
{
    let mut index = DuplicateIndex::new(min_matches);
    let n = fn_results.file_idx.len();
    let mut i: usize = 0;
    while i < n
        invariant
            fn_results.wf(),
            n == fn_results.file_idx@.len(),
            n < usize::MAX,
            0 <= i <= n,
            index.wf(),
            index.threshold() == (if min_matches > 64 { 64 } else { min_matches }),
            index.sigs().len() == i,
            forall|k: int| 0 <= k < i ==> {
                &&& (#[trigger] index.sigs()[k]).location == FunctionLocation { file_idx: fn_results.file_idx@[k], fn_idx: k as u32 }
                &&& index.sigs()[k].fingerprint == fn_results.fingerprint@[k]
                &&& index.sigs()[k].minhash@ == spec_minhash(seq![fn_results.fingerprint@[k]])
            },
        decreases n - i,
    {
        let location = FunctionLocation { file_idx: fn_results.file_idx[i], fn_idx: i as u32 };
        let tokens: Vec<u64> = vec![fn_results.fingerprint[i]];
        assert(tokens@ =~= seq![fn_results.fingerprint@[i as int]]);
        let ghost prev = index.sigs();
        index.add(location, fn_results.fingerprint[i], tokens.as_slice());
        proof {
            assert forall|k: int| 0 <= k < i + 1 implies {
                &&& (#[trigger] index.sigs()[k]).location == FunctionLocation { file_idx: fn_results.file_idx@[k], fn_idx: k as u32 }
                &&& index.sigs()[k].fingerprint == fn_results.fingerprint@[k]
                &&& index.sigs()[k].minhash@ == spec_minhash(seq![fn_results.fingerprint@[k]])
            } by {
                if k < i {
                    assert(index.sigs()[k] == index.sigs().drop_last()[k]);
                    assert(index.sigs()[k] == prev[k]);
                }
            }
        }
        i += 1;
    }
    index
}

/// The directory names whose contents are never analysed.
pub open spec fn skip_dirs() -> Seq<&'static str> {
    seq!["node_modules", "dist", "build", ".next", ".cache", "target", ".git", "__pycache__", ".venv", "venv"]
}

/// The components of a path, as std's `Path::components` splits it: each
/// normal component by its text, `None` for a root, prefix, `.` or `..`.
/// Within one build it is a function of the path's text; how std splits a
/// path differs between targets.
pub uninterp spec fn spec_path_components(path: Seq<char>) -> Seq<Option<Seq<char>>>;

/// Calls `Path::components` on `path` and gives each normal component as its
/// text (a component of a path given as text is text) and every other
/// component as `None`. Claimed: the result depends on the characters of
/// `path` alone.
#[verifier::external_body]
fn path_components(path: &str) -> (r: Vec<Option<String>>)
    ensures
        r@.len() == spec_path_components(path@).len(),
        forall|i: int| 0 <= i < r@.len() ==> match #[trigger] r@[i] {
            Some(s) => spec_path_components(path@)[i] == Some(s@),
            None => spec_path_components(path@)[i] is None,
        },
{
    std::path::Path::new(path).components().map(|c| match c {
        std::path::Component::Normal(s) => Some(s.to_string_lossy().into_owned()),
        _ => None,
    }).collect()
}

/// A path is skipped when one of its normal components names a directory
/// of dependencies, build output, caches or version control.
pub open spec fn spec_is_skippable(path: Seq<char>) -> bool {
    exists|i: int| 0 <= i < spec_path_components(path).len() && component_skipped(#[trigger] spec_path_components(path)[i])
}

/// A normal component that names a skipped directory.
pub open spec fn component_skipped(c: Option<Seq<char>>) -> bool {
    match c {
        Some(name) => table_has(skip_dirs(), name),
        None => false,
    }
}

/// Whether a path lies in a directory that analysis skips.
pub fn is_skippable(path: &str) -> (r: bool)
    ensures
        r == spec_is_skippable(path@),
{
    let skip: &[&str] = &["node_modules", "dist", "build", ".next", ".cache", "target", ".git", "__pycache__", ".venv", "venv"];
    assert(skip@ == skip_dirs());
    let components = path_components(path);
    let mut i: usize = 0;
    while i < components.len()
        invariant
            skip@ == skip_dirs(),
            components@.len() == spec_path_components(path@).len(),
            forall|k: int| 0 <= k < components@.len() ==> match #[trigger] components@[k] {
                Some(s) => spec_path_components(path@)[k] == Some(s@),
                None => spec_path_components(path@)[k] is None,
            },
            0 <= i <= components@.len(),
            forall|k: int| 0 <= k < i ==> !component_skipped(#[trigger] spec_path_components(path@)[k]),
        decreases components@.len() - i,
    {
        match &components[i] {
            Some(c) => {
                if str_in(skip, c.as_str()) {
                    assert(component_skipped(spec_path_components(path@)[i as int]));
                    return true;
                }
            },
            None => {},
        }
        assert(components@[i as int] == components@[i as int]);
        i += 1;
    }
    false
}

} // verus!
