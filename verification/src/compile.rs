//! The compiler's front end: the prelude, the compilation unit, the entry
//! points found in it, and the dispatch policy.
//!
//! Compiling is planned here and carried out by the owner of the GPU
//! device: `WgpuToyRenderer::compile` says which unit to build and which
//! entry points it has; the caller builds one pipeline for each, and only
//! when every one of them was built does it call `install`, which replaces
//! the installed entry points as a whole. A failed attempt thus leaves the
//! old entry points in place. The prelude is built anew for every attempt,
//! since it depends on the custom values and on the data tables of the
//! moment.

use vstd::prelude::*;
use crate::defines::DefinitionTable;
use crate::number::{decimal, decimal_text, parse_u32, parse_u32_text};
use crate::pp::{drive, initial, numbered, Preprocessor, progress_matches, ProgressModel, Step};
use crate::source_map::{new_source, SourceMap, SourceModel};
use crate::split::{fields_from, lines_of, split_fields, texts, trim, trimmed};
use crate::text::{append, append_str, CharClass, copy_range, has_at, lemma_run_end, occurs_at, run_end, scan_run, to_chars, to_string};
use crate::user_data::{Table, UserData};

verus! {

/// The aliases for the numeric types and for their vectors and matrices.
pub const PRELUDE_ALIASES: &'static str = "alias int = i32;\nalias uint = u32;\nalias float = f32;\nalias int2 = vec2<i32>;\nalias int3 = vec3<i32>;\nalias int4 = vec4<i32>;\nalias uint2 = vec2<u32>;\nalias uint3 = vec3<u32>;\nalias uint4 = vec4<u32>;\nalias float2 = vec2<f32>;\nalias float3 = vec3<f32>;\nalias float4 = vec4<f32>;\nalias bool2 = vec2<bool>;\nalias bool3 = vec3<bool>;\nalias bool4 = vec4<bool>;\nalias float2x2 = mat2x2<f32>;\nalias float2x3 = mat2x3<f32>;\nalias float2x4 = mat2x4<f32>;\nalias float3x2 = mat3x2<f32>;\nalias float3x3 = mat3x3<f32>;\nalias float3x4 = mat3x4<f32>;\nalias float4x2 = mat4x2<f32>;\nalias float4x3 = mat4x3<f32>;\nalias float4x4 = mat4x4<f32>;\n";

/// The structs through which the host hands over time, mouse and dispatch
/// data.
pub const PRELUDE_STRUCTS: &'static str = "\nstruct Time { frame: uint, elapsed: float, delta: float }\nstruct Mouse { pos: uint2, click: int }\nstruct DispatchInfo { id: uint }\n";

/// The helper functions that every shader can call.
pub const PRELUDE_HELPERS: &'static str = "\nfn keyDown(keycode: uint) -> bool {\n    return ((_keyboard[keycode / 128u][(keycode % 128u) / 32u] >> (keycode % 32u)) & 1u) == 1u;\n}\n\nfn assert(index: int, success: bool) {\n    if (!success) {\n        atomicAdd(&_assert_counts[index], 1u);\n    }\n}\n\nfn passStore(pass_index: int, coord: int2, value: float4) {\n    textureStore(pass_out, coord, pass_index, value);\n}\n\nfn passLoad(pass_index: int, coord: int2, lod: int) -> float4 {\n    return textureLoad(pass_in, coord, pass_index, lod);\n}\n\nfn passSampleLevelBilinearRepeat(pass_index: int, uv: float2, lod: float) -> float4 {\n    return textureSampleLevel(pass_in, bilinear_repeat, fract(uv), pass_index, lod);\n}\n";

/// The fields of the struct of custom values for the first `n` of `names`:
/// one `float` field for each.
pub open spec fn custom_fields(names: Seq<Seq<char>>, n: int) -> Seq<char>
    decreases n,
{
    if n <= 0 {
        Seq::empty()
    } else {
        custom_fields(names, n - 1) + "    "@ + names[n - 1] + ": float,\n"@
    }
}

/// The fields of the struct of data tables for the first `n` of `tables`:
/// for each an array of `u32` as long as the table.
pub open spec fn data_fields(tables: Seq<Table>, n: int) -> Seq<char>
    decreases n,
{
    if n <= 0 {
        Seq::empty()
    } else {
        data_fields(tables, n - 1) + "    "@ + tables[n - 1].0 + ": array<u32,"@ + decimal(
            tables[n - 1].1.len(),
        ) + ">,\n"@
    }
}

/// The prelude: the aliases, the host structs, the struct of the custom
/// values `names`, the struct of the data tables `tables`, the resource
/// declarations `bindings`, and the helper functions.
pub open spec fn prelude_text(names: Seq<Seq<char>>, tables: Seq<Table>, bindings: Seq<char>) -> Seq<
    char,
> {
    PRELUDE_ALIASES@ + PRELUDE_STRUCTS@ + "struct Custom {\n"@ + custom_fields(
        names,
        names.len() as int,
    ) + "};\n"@ + "struct Data {\n"@ + data_fields(tables, tables.len() as int) + "};\n"@
        + bindings + PRELUDE_HELPERS@
}

/// The compilation unit: the prelude, then the extensions, then the source.
pub open spec fn unit_text(prelude: Seq<char>, source: SourceModel) -> Seq<char> {
    prelude + source.extensions + source.source
}

/// Builds the prelude for the custom values `names`, the data tables
/// `tables` and the resource declarations `bindings`.
pub fn build_prelude(names: &Vec<String>, tables: &UserData, bindings: &str) -> (r: Vec<char>)
    ensures
        r@ == prelude_text(names@.map_values(|n: String| n@), tables@, bindings@),
{
    let ghost name_texts = names@.map_values(|n: String| n@);
    let mut out: Vec<char> = Vec::new();
    append_str(&mut out, PRELUDE_ALIASES);
    append_str(&mut out, PRELUDE_STRUCTS);
    append_str(&mut out, "struct Custom {\n");
    let ghost head = out@;
    let mut k: usize = 0;
    while k < names.len()
        invariant
            k <= names.len(),
            name_texts == names@.map_values(|n: String| n@),
            out@ == head + custom_fields(name_texts, k as int),
        decreases names.len() - k,
    {
        let ghost before = custom_fields(name_texts, k as int);
        append_str(&mut out, "    ");
        append_str(&mut out, names[k].as_str());
        append_str(&mut out, ": float,\n");
        proof {
            assert(name_texts[k as int] == names@[k as int]@);
            assert(out@ == head + (before + "    "@ + name_texts[k as int] + ": float,\n"@));
        }
        k = k + 1;
    }
    append_str(&mut out, "};\n");
    append_str(&mut out, "struct Data {\n");
    let ghost head = out@;
    let count = tables.len();
    let mut k: usize = 0;
    while k < count
        invariant
            k <= count,
            count == tables@.len(),
            out@ == head + data_fields(tables@, k as int),
        decreases count - k,
    {
        let ghost before = data_fields(tables@, k as int);
        let name = match tables.name_at(k) {
            Some(n) => n,
            None => String::new(),
        };
        let size = match tables.size_at(k) {
            Some(n) => n,
            None => 0,
        };
        append_str(&mut out, "    ");
        append_str(&mut out, name.as_str());
        append_str(&mut out, ": array<u32,");
        append(&mut out, decimal_text(size).as_slice());
        append_str(&mut out, ">,\n");
        proof {
            assert(out@ == head + (before + "    "@ + tables@[k as int].0 + ": array<u32,"@
                + decimal(tables@[k as int].1.len()) + ">,\n"@));
        }
        k = k + 1;
    }
    append_str(&mut out, "};\n");
    append_str(&mut out, bindings);
    append_str(&mut out, PRELUDE_HELPERS);
    out
}

/// Whether `c` can stand in the name of a function: a word character of
/// Unicode.
pub uninterp spec fn unicode_word(c: char) -> bool;

/// `regex_syntax::try_is_word_character`: whether a character is a word
/// character as regular expressions of Unicode define it. The answer
/// depends on the character alone. The function does not panic; it fails
/// only in a build without the Unicode tables, which this crate does not
/// make.
#[verifier::external_body]
fn is_name_char(c: char) -> (r: bool)
    ensures
        r == unicode_word(c),
{
    regex_syntax::try_is_word_character(c).unwrap_or(false)
}

/// The first position at or after `i` where `pat` occurs in `t`, or the
/// length of `t` where it occurs nowhere behind `i`.
pub open spec fn find_from(t: Seq<char>, pat: Seq<char>, i: int) -> int
    decreases t.len() - i,
{
    if i < 0 || i >= t.len() || i + pat.len() > t.len() {
        t.len() as int
    } else if occurs_at(t, i, pat) {
        i
    } else {
        find_from(t, pat, i + 1)
    }
}

/// What is found lies at or behind the start of the search, and `pat`
/// occurs there.
pub proof fn lemma_find_from(t: Seq<char>, pat: Seq<char>, i: int)
    requires
        0 <= i <= t.len(),
        pat.len() > 0,
    ensures
        i <= find_from(t, pat, i) <= t.len(),
        find_from(t, pat, i) < t.len() ==> occurs_at(t, find_from(t, pat, i), pat),
    decreases t.len() - i,
{
    if i + pat.len() <= t.len() && !occurs_at(t, i, pat) {
        lemma_find_from(t, pat, i + 1);
    }
}

/// Where the name of a function begins whose declaration opens at `p`: the
/// word `fn`, then whitespace, then a name.
pub open spec fn fn_name_at(t: Seq<char>, p: int) -> Option<int> {
    if occurs_at(t, p, "fn"@) {
        let s = run_end(t, p + "fn"@.len(), CharClass::Space);
        if s > p + "fn"@.len() && s < t.len() && unicode_word(t[s]) {
            Some(s)
        } else {
            None
        }
    } else {
        None
    }
}

/// Where the name begins of the first function declaration that opens at
/// or after `i`.
pub open spec fn find_fn(t: Seq<char>, i: int) -> Option<int>
    decreases t.len() - i,
{
    if i < 0 || i >= t.len() {
        None
    } else if fn_name_at(t, i) is Some {
        fn_name_at(t, i)
    } else {
        find_fn(t, i + 1)
    }
}

/// A name that is found begins behind the start of the search, on a word
/// character.
pub proof fn lemma_find_fn(t: Seq<char>, i: int)
    requires
        0 <= i,
    ensures
        find_fn(t, i) matches Some(s) ==> i < s < t.len() && unicode_word(t[s]),
    decreases t.len() - i,
{
    if i < t.len() {
        if fn_name_at(t, i) is Some {
            lemma_run_end(t, i + "fn"@.len(), CharClass::Space);
            assert(occurs_at(t, i, "fn"@));
        } else {
            lemma_find_fn(t, i + 1);
        }
    }
}

/// Where the name ends that begins at `i`: at the first character that is
/// no word character.
pub open spec fn name_end(t: Seq<char>, i: int) -> int
    decreases t.len() - i,
{
    if 0 <= i < t.len() && unicode_word(t[i]) {
        name_end(t, i + 1)
    } else {
        i
    }
}

/// A name ends inside the text, behind its first character.
pub proof fn lemma_name_end(t: Seq<char>, i: int)
    requires
        0 <= i <= t.len(),
    ensures
        i <= name_end(t, i) <= t.len(),
        i < t.len() && unicode_word(t[i]) ==> i < name_end(t, i),
    decreases t.len() - i,
{
    if i < t.len() && unicode_word(t[i]) {
        lemma_name_end(t, i + 1);
    }
}

/// The dimension at place `k` of a workgroup size: the number that the
/// piece at that place spells once trimmed, and one where the piece spells
/// none or is missing.
pub open spec fn dimension(pieces: Seq<Seq<char>>, k: int) -> u32 {
    if 0 <= k < pieces.len() {
        match parse_u32(trim(pieces[k])) {
            Some(v) => v,
            None => 1,
        }
    } else {
        1
    }
}

/// The workgroup size that the arguments `args` give: the first three of
/// its comma-separated values.
pub open spec fn workgroup_size_of(args: Seq<char>) -> [u32; 3] {
    let pieces = fields_from(args, 0);
    [dimension(pieces, 0), dimension(pieces, 1), dimension(pieces, 2)]
}

/// An entry point as it is found in the text.
pub struct Found {
    /// The name of the function.
    pub name: Seq<char>,
    /// The size of a workgroup, across, down and deep.
    pub workgroup_size: [u32; 3],
}

/// The first entry point that opens at or after `i`, and where its name
/// ends.
///
/// An entry point opens with `@compute`. Behind that comes, anywhere,
/// `@workgroup_size(`; its arguments run up to the next `)`. Behind that
/// comes, anywhere, the first function declaration; its name is the name of
/// the entry point.
///
/// The attributes count in this order only: a size that stands before
/// `@compute` belongs to no entry point. What stands between the parts is
/// not looked at, so of several functions behind a size the first gives
/// the name. Where a part is missing there is no further entry point.
pub open spec fn next_entry(t: Seq<char>, i: int) -> Option<(Found, int)> {
    let c = find_from(t, "@compute"@, i);
    if c >= t.len() {
        None
    } else {
        let w = find_from(t, "@workgroup_size("@, c + "@compute"@.len());
        if w >= t.len() {
            None
        } else {
            let a = w + "@workgroup_size("@.len();
            let close = run_end(t, a, CharClass::Except(')'));
            if close >= t.len() {
                None
            } else {
                match find_fn(t, close + 1) {
                    None => None,
                    Some(s) => Some(
                        (
                            Found {
                                name: t.subrange(s, name_end(t, s)),
                                workgroup_size: workgroup_size_of(t.subrange(a, close)),
                            },
                            name_end(t, s),
                        ),
                    ),
                }
            }
        }
    }
}

/// An entry point ends behind the position from which it was searched.
pub proof fn lemma_next_entry(t: Seq<char>, i: int)
    requires
        0 <= i <= t.len(),
    ensures
        next_entry(t, i) matches Some((_, end)) ==> i < end <= t.len(),
{
    reveal_strlit("@compute");
    reveal_strlit("@workgroup_size(");
    let c = find_from(t, "@compute"@, i);
    lemma_find_from(t, "@compute"@, i);
    if c < t.len() {
        let w = find_from(t, "@workgroup_size("@, c + "@compute"@.len());
        lemma_find_from(t, "@workgroup_size("@, c + "@compute"@.len());
        if w < t.len() {
            let a = w + "@workgroup_size("@.len();
            lemma_run_end(t, a, CharClass::Except(')'));
            let close = run_end(t, a, CharClass::Except(')'));
            if close < t.len() {
                lemma_find_fn(t, close + 1);
                match find_fn(t, close + 1) {
                    None => {},
                    Some(s) => {
                        lemma_name_end(t, s);
                    },
                }
            }
        }
    }
}

/// The entry points of `t` that open at or after `i`, in their order. The
/// search for the next one begins where the name of the last one ends.
pub open spec fn entry_points_from(t: Seq<char>, i: int) -> Seq<Found>
    decreases t.len() - i,
{
    if i < 0 || i > t.len() {
        seq![]
    } else {
        match next_entry(t, i) {
            None => seq![],
            Some((found, end)) => {
                proof {
                    lemma_next_entry(t, i);
                }
                seq![found] + entry_points_from(t, end)
            },
        }
    }
}

/// The entry points of `t`, in their order.
pub open spec fn entry_points_of(t: Seq<char>) -> Seq<Found> {
    entry_points_from(t, 0)
}

/// Finds the first position at or after `i` where `pat` occurs in `t`.
fn find(t: &[char], pat: &[char], i: usize) -> (r: usize)
    requires
        i <= t.len(),
        pat.len() > 0,
    ensures
        r == find_from(t@, pat@, i as int),
        i <= r <= t.len(),
        r < t.len() ==> r + pat.len() <= t.len(),
{
    let mut k: usize = i;
    while k < t.len() && pat.len() <= t.len() - k
        invariant
            i <= k <= t.len(),
            pat.len() > 0,
            find_from(t@, pat@, k as int) == find_from(t@, pat@, i as int),
        decreases t.len() - k,
    {
        if has_at(t, k, pat) {
            return k;
        }
        k = k + 1;
    }
    t.len()
}

/// Finds where the name ends that begins at `i`.
fn scan_name(t: &[char], i: usize) -> (j: usize)
    requires
        i <= t.len(),
    ensures
        j == name_end(t@, i as int),
        i <= j <= t.len(),
{
    let mut j: usize = i;
    while j < t.len() && is_name_char(t[j])
        invariant
            i <= j <= t.len(),
            name_end(t@, j as int) == name_end(t@, i as int),
        decreases t.len() - j,
    {
        j = j + 1;
    }
    j
}

/// Finds where the name begins of the first function declaration that
/// opens at or after `i`.
fn find_fn_name(t: &[char], i: usize) -> (r: Option<usize>)
    requires
        i <= t.len(),
    ensures
        match r {
            Some(s) => find_fn(t@, i as int) == Some(s as int) && i < s < t.len(),
            None => find_fn(t@, i as int) is None,
        },
{
    let word = to_chars("fn");
    proof {
        reveal_strlit("fn");
    }
    let mut p: usize = i;
    while p < t.len()
        invariant
            i <= p <= t.len(),
            word@ == "fn"@,
            word@.len() == 2,
            find_fn(t@, p as int) == find_fn(t@, i as int),
        decreases t.len() - p,
    {
        if has_at(t, p, word.as_slice()) {
            let s = scan_run(t, p + 2, CharClass::Space);
            if s > p + 2 && s < t.len() && is_name_char(t[s]) {
                return Some(s);
            }
        }
        p = p + 1;
    }
    None
}

/// Reads the first three comma-separated values of `args` as a workgroup
/// size.
pub fn parse_workgroup_size(args: &[char]) -> (r: [u32; 3])
    ensures
        r == workgroup_size_of(args@),
{
    let pieces = split_fields(args);
    let mut size: [u32; 3] = [1, 1, 1];
    let mut k: usize = 0;
    while k < 3
        invariant
            k <= 3,
            texts(pieces@) == fields_from(args@, 0),
            forall|j: int| 0 <= j < 3 ==> size[j] == if j < k {
                dimension(texts(pieces@), j)
            } else {
                1
            },
        decreases 3 - k,
    {
        if k < pieces.len() {
            assert(texts(pieces@)[k as int] == pieces@[k as int]@);
            let value = trimmed(pieces[k].as_slice());
            match parse_u32_text(value.as_slice()) {
                Some(v) => {
                    size[k] = v;
                },
                None => {},
            }
        }
        k = k + 1;
    }
    assert(size@ =~= workgroup_size_of(args@)@);
    size
}

/// An entry point that was found: its name and its workgroup size.
pub struct FoundEntry {
    /// The name of the function.
    pub name: String,
    /// The size of a workgroup, across, down and deep.
    pub workgroup_size: [u32; 3],
}

impl View for FoundEntry {
    type V = Found;

    open spec fn view(&self) -> Found {
        Found { name: self.name@, workgroup_size: self.workgroup_size }
    }
}

/// The views of a vector of found entry points.
pub open spec fn founds(v: Seq<FoundEntry>) -> Seq<Found> {
    v.map_values(|e: FoundEntry| e@)
}

/// The view of a vector with one more entry point.
proof fn lemma_founds_push(v: Seq<FoundEntry>, e: FoundEntry)
    ensures
        founds(v.push(e)) == founds(v).push(e@),
{
    assert(founds(v.push(e)) =~= founds(v).push(e@));
}

/// Finds the entry points of the compilation unit `t`.
pub fn find_entry_points(t: &[char]) -> (r: Vec<FoundEntry>)
    ensures
        founds(r@) == entry_points_of(t@),
{
    let compute = to_chars("@compute");
    let size = to_chars("@workgroup_size(");
    proof {
        reveal_strlit("@compute");
        reveal_strlit("@workgroup_size(");
    }
    let mut out: Vec<FoundEntry> = Vec::new();
    let mut i: usize = 0;
    assert(founds(out@) =~= Seq::<Found>::empty());
    loop
        invariant_except_break
            i <= t.len(),
            compute@ == "@compute"@,
            size@ == "@workgroup_size("@,
            compute@.len() == 8,
            size@.len() == 16,
            founds(out@) + entry_points_from(t@, i as int) == entry_points_of(t@),
        ensures
            founds(out@) == entry_points_of(t@),
        decreases t.len() - i,
    {
        proof {
            lemma_next_entry(t@, i as int);
            assert(founds(out@) + Seq::<Found>::empty() == founds(out@));
        }
        let c = find(t, compute.as_slice(), i);
        if c >= t.len() {
            break ;
        }
        let w = find(t, size.as_slice(), c + 8);
        if w >= t.len() {
            break ;
        }
        let a = w + 16;
        let close = scan_run(t, a, CharClass::Except(')'));
        if close >= t.len() {
            break ;
        }
        let s = match find_fn_name(t, close + 1) {
            Some(s) => s,
            None => {
                break ;
            },
        };
        let end = scan_name(t, s);
        let name = copy_range(t, s, end);
        let args = copy_range(t, a, close);
        let entry = FoundEntry {
            name: to_string(name.as_slice()),
            workgroup_size: parse_workgroup_size(args.as_slice()),
        };
        proof {
            let before = founds(out@);
            lemma_founds_push(out@, entry);
            assert(next_entry(t@, i as int) == Some((entry@, end as int)));
            assert(before + (seq![entry@] + entry_points_from(t@, end as int)) == before.push(
                entry@,
            ) + entry_points_from(t@, end as int));
        }
        out.push(entry);
        i = end;
    }
    out
}

/// A compiled entry point, without the handle of its pipeline: its name,
/// its workgroup size, and how it is dispatched.
pub struct EntryPoint {
    /// The name of the function, which is the entry symbol of the pipeline.
    pub name: String,
    /// The size of a workgroup, across, down and deep.
    pub workgroup_size: [u32; 3],
    /// The dispatch grid that a directive fixed, if one did.
    pub workgroup_count: Option<[u32; 3]>,
    /// Whether the entry point runs on the first frame only.
    pub dispatch_once: bool,
    /// How often the entry point runs per frame.
    pub dispatch_count: u32,
}

/// An entry point as plain values.
pub struct EntryModel {
    /// The name of the function.
    pub name: Seq<char>,
    /// The size of a workgroup, across, down and deep.
    pub workgroup_size: [u32; 3],
    /// The dispatch grid that a directive fixed, if one did.
    pub workgroup_count: Option<[u32; 3]>,
    /// Whether the entry point runs on the first frame only.
    pub dispatch_once: bool,
    /// How often the entry point runs per frame.
    pub dispatch_count: u32,
}

impl View for EntryPoint {
    type V = EntryModel;

    open spec fn view(&self) -> EntryModel {
        EntryModel {
            name: self.name@,
            workgroup_size: self.workgroup_size,
            workgroup_count: self.workgroup_count,
            dispatch_once: self.dispatch_once,
            dispatch_count: self.dispatch_count,
        }
    }
}

/// The views of a vector of entry points.
pub open spec fn entries(v: Seq<EntryPoint>) -> Seq<EntryModel> {
    v.map_values(|e: EntryPoint| e@)
}

/// The entry point `found` with what the directives of `source` say of its
/// name: the dispatch grid if one was fixed, whether it runs once, and how
/// often it runs per frame, which is once where no directive says
/// otherwise.
pub open spec fn attach(found: Found, source: SourceModel) -> EntryModel {
    EntryModel {
        name: found.name,
        workgroup_size: found.workgroup_size,
        workgroup_count: if source.workgroup_count.contains_key(found.name) {
            Some(source.workgroup_count[found.name])
        } else {
            None
        },
        dispatch_once: source.dispatch_once.contains_key(found.name)
            && source.dispatch_once[found.name],
        dispatch_count: if source.dispatch_count.contains_key(found.name) {
            source.dispatch_count[found.name]
        } else {
            1
        },
    }
}

/// The entry points of the unit `unit`, each with what the directives of
/// `source` say of it.
pub open spec fn planned_entries(unit: Seq<char>, source: SourceModel) -> Seq<EntryModel> {
    entry_points_of(unit).map_values(|f: Found| attach(f, source))
}

/// `a / b`, rounded up.
pub open spec fn ceil_div(a: int, b: int) -> int {
    if a % b == 0 {
        a / b
    } else {
        a / b + 1
    }
}

/// The dispatch grid of `entry` for a target of `width` by `height`: the
/// grid that a directive fixed, else as many workgroups as cover the
/// target once, in one layer.
pub open spec fn grid_of(entry: EntryModel, width: u32, height: u32) -> [u32; 3] {
    match entry.workgroup_count {
        Some(grid) => grid,
        None => [
            ceil_div(width as int, entry.workgroup_size[0] as int) as u32,
            ceil_div(height as int, entry.workgroup_size[1] as int) as u32,
            1u32,
        ],
    }
}

/// How often `entry` runs on a frame, where `frame` counts the frames since
/// the entry points were installed, from zero.
pub open spec fn invocations_of(entry: EntryModel, frame: u64) -> u32 {
    if entry.dispatch_once && frame > 0 {
        0
    } else {
        entry.dispatch_count
    }
}

/// The workgroups of the default grid cover the extent, and one fewer
/// would not.
pub proof fn lemma_ceil_div_covers(a: int, b: int)
    requires
        0 <= a,
        0 < b,
    ensures
        0 <= ceil_div(a, b) <= a,
        ceil_div(a, b) * b >= a,
        a > 0 ==> (ceil_div(a, b) - 1) * b < a,
        a == 0 ==> ceil_div(a, b) == 0,
{
    vstd::arithmetic::div_mod::lemma_fundamental_div_mod(a, b);
    vstd::arithmetic::div_mod::lemma_div_pos_is_pos(a, b);
    vstd::arithmetic::div_mod::lemma_mod_bound(a, b);
    let q = a / b;
    let r = a % b;
    assert(a == b * q + r);
    assert(q * b == b * q) by (nonlinear_arith);
    assert((q + 1) * b == q * b + b) by (nonlinear_arith);
    assert((q - 1) * b == q * b - b) by (nonlinear_arith);
    assert(q <= a) by (nonlinear_arith)
        requires
            a == b * q + r,
            0 <= r,
            0 <= q,
            1 <= b,
    ;
    if r != 0 {
        assert(q + 1 <= a) by (nonlinear_arith)
            requires
                a == b * q + r,
                1 <= r,
                0 <= q,
                1 <= b,
        ;
    }
}

/// `a / b`, rounded up.
fn div_ceil(a: u32, b: u32) -> (q: u32)
    requires
        b > 0,
    ensures
        q == ceil_div(a as int, b as int),
{
    proof {
        lemma_ceil_div_covers(a as int, b as int);
    }
    if a % b == 0 {
        a / b
    } else {
        a / b + 1
    }
}

impl EntryPoint {
    /// Whether the dispatch grid can be computed: it is fixed, or the
    /// workgroup is not empty across or down.
    pub fn dispatchable(&self) -> (r: bool)
        ensures
            r == (self.workgroup_count is Some || (self.workgroup_size[0] > 0
                && self.workgroup_size[1] > 0)),
    {
        self.workgroup_count.is_some() || (self.workgroup_size[0] > 0 && self.workgroup_size[1]
            > 0)
    }

    /// The dispatch grid for a target of `width` by `height`.
    pub fn workgroup_grid(&self, width: u32, height: u32) -> (r: [u32; 3])
        requires
            self.workgroup_count is Some || (self.workgroup_size[0] > 0 && self.workgroup_size[1]
                > 0),
        ensures
            r == grid_of(self@, width, height),
    {
        match self.workgroup_count {
            Some(grid) => grid,
            None => {
                let r = [
                    div_ceil(width, self.workgroup_size[0]),
                    div_ceil(height, self.workgroup_size[1]),
                    1,
                ];
                assert(r@ =~= grid_of(self@, width, height)@);
                r
            },
        }
    }

    /// How often the entry point runs on a frame, where `frame` counts the
    /// frames since the entry points were installed, from zero.
    pub fn invocations(&self, frame: u64) -> (r: u32)
        ensures
            r == invocations_of(self@, frame),
    {
        if self.dispatch_once && frame > 0 {
            0
        } else {
            self.dispatch_count
        }
    }
}

/// What a compile attempt is to build: the compilation unit, and one
/// pipeline for each entry point.
pub struct CompilePlan {
    /// The compilation unit, which every pipeline is built from.
    pub wgsl: String,
    /// The entry points, in the order in which the unit declares them.
    pub entry_points: Vec<EntryPoint>,
}

/// The view of a vector with one more entry point.
proof fn lemma_entries_push(v: Seq<EntryPoint>, e: EntryPoint)
    ensures
        entries(v.push(e)) == entries(v).push(e@),
{
    assert(entries(v.push(e)) =~= entries(v).push(e@));
}

/// What is planned for one more of the found entry points.
proof fn lemma_planned_take(found: Seq<Found>, source: SourceModel, k: int)
    requires
        0 <= k < found.len(),
    ensures
        found.take(k + 1).map_values(|f: Found| attach(f, source)) == found.take(k).map_values(
            |f: Found| attach(f, source),
        ).push(attach(found[k], source)),
{
    assert(found.take(k + 1).map_values(|f: Found| attach(f, source)) =~= found.take(
        k,
    ).map_values(|f: Found| attach(f, source)).push(attach(found[k], source)));
}

/// The state of a renderer that compiling and dispatching read and write:
/// the size of the target, the entry points that are installed, and the
/// source map that they were compiled from.
pub struct WgpuToyRenderer {
    screen_width: u32,
    screen_height: u32,
    compute_pipelines: Vec<EntryPoint>,
    source: SourceMap,
}

/// A renderer's state as plain values.
pub struct RendererModel {
    /// The width of the target.
    pub screen_width: u32,
    /// The height of the target.
    pub screen_height: u32,
    /// The entry points that are installed.
    pub entry_points: Seq<EntryModel>,
    /// The source map that the entry points were compiled from.
    pub source: SourceModel,
}

impl View for WgpuToyRenderer {
    type V = RendererModel;

    closed spec fn view(&self) -> RendererModel {
        RendererModel {
            screen_width: self.screen_width,
            screen_height: self.screen_height,
            entry_points: entries(self.compute_pipelines@),
            source: self.source@,
        }
    }
}

/// The definitions that every shader starts from: the size of the target.
pub open spec fn screen_defines(width: u32, height: u32) -> Map<Seq<char>, Seq<char>> {
    Map::<Seq<char>, Seq<char>>::empty().insert("SCREEN_WIDTH"@, decimal(width as nat)).insert(
        "SCREEN_HEIGHT"@,
        decimal(height as nat),
    )
}

impl WgpuToyRenderer {
    /// A renderer for a target of `width` by `height`, with no entry
    /// points.
    pub fn new(width: u32, height: u32) -> (r: Self)
        ensures
            r@.screen_width == width,
            r@.screen_height == height,
            r@.entry_points == Seq::<EntryModel>::empty(),
            r@.source == new_source(),
    {
        let r = WgpuToyRenderer {
            screen_width: width,
            screen_height: height,
            compute_pipelines: Vec::new(),
            source: SourceMap::new(),
        };
        assert(entries(r.compute_pipelines@) =~= Seq::<EntryModel>::empty());
        r
    }

    /// The width of the target.
    pub fn screen_width(&self) -> (r: u32)
        ensures
            r == self@.screen_width,
    {
        self.screen_width
    }

    /// The height of the target.
    pub fn screen_height(&self) -> (r: u32)
        ensures
            r == self@.screen_height,
    {
        self.screen_height
    }

    /// The entry points that are installed.
    pub fn entry_points(&self) -> (r: &Vec<EntryPoint>)
        ensures
            entries(r@) == self@.entry_points,
    {
        &self.compute_pipelines
    }

    /// The source map that the installed entry points were compiled from.
    pub fn source(&self) -> (r: &SourceMap)
        ensures
            r@ == self@.source,
    {
        &self.source
    }

    /// Sets the size of the target. The entry points stay.
    pub fn set_size(&mut self, width: u32, height: u32)
        ensures
            final(self)@ == (RendererModel {
                screen_width: width,
                screen_height: height,
                ..old(self)@
            }),
    {
        self.screen_width = width;
        self.screen_height = height;
    }

    /// The prelude for the custom values `names`, the data tables `tables`
    /// and the resource declarations `bindings`. It is built anew on every
    /// call.
    pub fn prelude(names: &Vec<String>, tables: &UserData, bindings: &str) -> (r: String)
        ensures
            r@ == prelude_text(names@.map_values(|n: String| n@), tables@, bindings@),
    {
        let out = build_prelude(names, tables, bindings);
        to_string(out.as_slice())
    }

    /// Starts to preprocess `shader`, from the definitions of the target's
    /// size. Returns the preprocessor with the first step.
    pub fn start_preprocess(&self, shader: &str) -> (r: (Preprocessor, Step))
        ensures
            progress_matches(
                drive(
                    initial(screen_defines(self@.screen_width, self@.screen_height)),
                    numbered(lines_of(shader@)),
                ),
                r.0@,
                r.1,
            ),
    {
        let mut defines = DefinitionTable::new();
        defines.seed(
            "SCREEN_WIDTH",
            to_string(decimal_text(self.screen_width as usize).as_slice()).as_str(),
        );
        defines.seed(
            "SCREEN_HEIGHT",
            to_string(decimal_text(self.screen_height as usize).as_slice()).as_str(),
        );
        let mut pp = Preprocessor::new(defines);
        let step = pp.run(shader);
        (pp, step)
    }

    /// Plans the compilation of `source`: the compilation unit, which is
    /// the prelude, the extensions and the source, and the entry points
    /// found in it, each with what the directives say of it. Nothing is
    /// installed.
    pub fn compile(source: &SourceMap, names: &Vec<String>, bindings: &str) -> (r: CompilePlan)
        ensures
            r.wgsl@ == unit_text(
                prelude_text(names@.map_values(|n: String| n@), source@.user_data, bindings@),
                source@,
            ),
            entries(r.entry_points@) == planned_entries(r.wgsl@, source@),
    {
        let mut unit = build_prelude(names, &source.user_data, bindings);
        append_str(&mut unit, source.extensions.as_str());
        append_str(&mut unit, source.source.as_str());
        let found = find_entry_points(unit.as_slice());
        let mut out: Vec<EntryPoint> = Vec::new();
        let mut k: usize = 0;
        let ghost all = founds(found@);
        assert(entries(out@) =~= all.take(0).map_values(|f: Found| attach(f, source@)));
        while k < found.len()
            invariant
                k <= found.len(),
                all == founds(found@),
                entries(out@) == all.take(k as int).map_values(|f: Found| attach(f, source@)),
            decreases found.len() - k,
        {
            let name = found[k].name.clone();
            let entry = EntryPoint {
                workgroup_size: found[k].workgroup_size,
                workgroup_count: source.workgroup_count_of(name.as_str()),
                dispatch_once: source.is_dispatch_once(name.as_str()),
                dispatch_count: match source.dispatch_count_of(name.as_str()) {
                    Some(count) => count,
                    None => 1,
                },
                name,
            };
            proof {
                assert(all[k as int] == found@[k as int]@);
                assert(entry@ == attach(all[k as int], source@));
                lemma_entries_push(out@, entry);
                lemma_planned_take(all, source@, k as int);
            }
            out.push(entry);
            k = k + 1;
        }
        proof {
            assert(all.take(found.len() as int) == all);
        }
        CompilePlan { wgsl: to_string(unit.as_slice()), entry_points: out }
    }

    /// Installs the entry points of a compile attempt that succeeded, with
    /// the source map that they came from. The entry points that were
    /// installed before are replaced as a whole.
    pub fn install(&mut self, entry_points: Vec<EntryPoint>, source: SourceMap)
        ensures
            final(self)@ == (RendererModel {
                entry_points: entries(entry_points@),
                source: source@,
                ..old(self)@
            }),
    {
        self.compute_pipelines = entry_points;
        self.source = source;
    }
}

/// The entry points that an attempt plans for `shader`, where preprocessing
/// starts from `defines` and finishes without an include; `None` where it
/// does not finish.
pub open spec fn attempt(
    defines: Map<Seq<char>, Seq<char>>,
    shader: Seq<char>,
    names: Seq<Seq<char>>,
    bindings: Seq<char>,
) -> Option<Seq<EntryModel>> {
    match drive(
        initial(defines),
        numbered(lines_of(shader)),
    ) {
        ProgressModel::Done(last) => Some(
            planned_entries(
                unit_text(prelude_text(names, last.source.user_data, bindings), last.source),
                last.source,
            ),
        ),
        _ => None,
    }
}

/// Two attempts on the same input plan the same entry points: an attempt
/// starts from the definitions it is given and from nothing else, so no
/// counter of an earlier attempt enters a later one.
pub proof fn lemma_attempts_agree(
    defines_a: Map<Seq<char>, Seq<char>>,
    defines_b: Map<Seq<char>, Seq<char>>,
    shader_a: Seq<char>,
    shader_b: Seq<char>,
    names_a: Seq<Seq<char>>,
    names_b: Seq<Seq<char>>,
    bindings_a: Seq<char>,
    bindings_b: Seq<char>,
)
    requires
        defines_a == defines_b,
        shader_a == shader_b,
        names_a == names_b,
        bindings_a == bindings_b,
    ensures
        attempt(defines_a, shader_a, names_a, bindings_a) == attempt(
            defines_b,
            shader_b,
            names_b,
            bindings_b,
        ),
        initial(defines_a).storage_count == 0,
        initial(defines_a).assert_count == 0,
        initial(defines_a).source == new_source(),
        !initial(defines_a).special_strings,
{
}

} // verus!
