//! Symbol resolution: from an executable's symbol table to the offsets of the
//! functions that a configuration names by their canonical (demangled, untagged) name.
use vstd::prelude::*;

verus! {

/// Regular expression for the disambiguation tag that rustc appends to a demangled path.
pub const HASH_SUFFIX_PATTERN: &'static str = "::h[0-9a-f]+$";

/// A resolved function: where it lives and under which symbol.
pub ghost struct FunctionTarget {
    pub binary_path: Seq<char>,
    pub canonical_name: Seq<char>,
    pub mangled_name: Seq<char>,
    pub offset: u64,
}

/// One resolved function of one binary.
pub struct FunctionInfo {
    pub binary_path: String,
    pub demangled_name: String,
    pub mangled_name: String,
    pub offset: u64,
}

impl View for FunctionInfo {
    type V = FunctionTarget;

    open spec fn view(&self) -> FunctionTarget {
        FunctionTarget {
            binary_path: self.binary_path@,
            canonical_name: self.demangled_name@,
            mangled_name: self.mangled_name@,
            offset: self.offset,
        }
    }
}

/// The functions to instrument in one binary, by canonical name.
pub struct BinaryConfig {
    pub path: String,
    pub functions: Vec<String>,
}

/// The binaries to instrument.
pub struct InstrumentationConfig {
    pub binaries: Vec<BinaryConfig>,
}

/// One entry of a symbol table: its name, where the string table holds one, and its value.
pub struct SymbolEntry {
    pub name: Option<String>,
    pub value: u64,
}

impl View for SymbolEntry {
    type V = (Option<Seq<char>>, u64);

    open spec fn view(&self) -> (Option<Seq<char>>, u64) {
        (self.name.deep_view(), self.value)
    }
}

/// The resolved functions that a sequence of entries holds.
pub open spec fn targets_view(v: Seq<FunctionInfo>) -> Seq<FunctionTarget> {
    v.map_values(|f: FunctionInfo| f@)
}

/// The (name, value) pairs that a sequence of symbol entries holds.
pub open spec fn symbols_view(v: Seq<SymbolEntry>) -> Seq<(Option<Seq<char>>, u64)> {
    v.map_values(|e: SymbolEntry| e@)
}

/// `c` is one of `0`-`9` or `a`-`f`.
pub open spec fn is_lower_hex(c: char) -> bool {
    (48 <= c as u32 && c as u32 <= 57) || (97 <= c as u32 && c as u32 <= 102)
}

/// `s` carries a hash tag from position `p` on: `::h`, then one or more lowercase
/// hexadecimal digits up to the end.
pub open spec fn hash_suffix_at(s: Seq<char>, p: int) -> bool {
    &&& 0 <= p && p + 3 < s.len()
    &&& s[p] == ':' && s[p + 1] == ':' && s[p + 2] == 'h'
    &&& forall|k: int| p + 3 <= k < s.len() ==> is_lower_hex(#[trigger] s[k])
}

/// `s` without its trailing hash tag, if it has one.
pub open spec fn without_hash_suffix(s: Seq<char>) -> Seq<char> {
    if exists|p: int| hash_suffix_at(s, p) {
        s.subrange(0, choose|p: int| hash_suffix_at(s, p))
    } else {
        s
    }
}

/// The text that rustc_demangle renders for a symbol.
pub uninterp spec fn demangled_of(symbol: Seq<char>) -> Seq<char>;

/// The name under which configurations refer to a symbol.
pub open spec fn canonical_of(symbol: Seq<char>) -> Seq<char> {
    without_hash_suffix(demangled_of(symbol))
}

/// Relies on rustc_demangle::demangle, rendered through `Display`: the text depends on
/// the symbol alone.
#[verifier::external_body]
fn demangle_symbol(symbol: &str) -> (r: String)
    ensures
        r@ == demangled_of(symbol@),
{
    rustc_demangle::demangle(symbol).to_string()
}

/// Relies on regex::Regex::new and Regex::replace: the pattern compiles, and `replace`
/// removes the leftmost match, which for this pattern is a trailing `::h` followed by
/// lowercase hexadecimal digits (`$` matches only at the end of the text).
#[verifier::external_body]
fn replace_hash_suffix(pattern: &str, demangled: &str) -> (r: String)
    requires
        pattern@ == HASH_SUFFIX_PATTERN@,
    ensures
        r@ == without_hash_suffix(demangled@),
{
    regex::Regex::new(pattern).unwrap().replace(demangled, "").into_owned()
}

/// Removes the hash tag that ends a demangled name, if there is one.
pub fn strip_hash_suffix(demangled: &str) -> (r: String)
    ensures
        r@ == without_hash_suffix(demangled@),
{
    replace_hash_suffix(HASH_SUFFIX_PATTERN, demangled)
}

/// The canonical name of a symbol: demangled, then without its hash tag.
pub fn canonical_name(symbol: &str) -> (r: String)
    ensures
        r@ == canonical_of(symbol@),
{
    let demangled = demangle_symbol(symbol);
    strip_hash_suffix(demangled.as_str())
}


/// Candidate `i` is the one that a name resolves to: no other candidate of that name
/// has a lower offset, nor the same offset at an earlier position.
pub open spec fn preferred(c: Seq<FunctionTarget>, i: int) -> bool {
    &&& 0 <= i < c.len()
    &&& forall|j: int|
        0 <= j < c.len() && (#[trigger] c[j]).canonical_name == c[i].canonical_name ==> c[i].offset
            < c[j].offset || (c[i].offset == c[j].offset && i <= j)
}

/// `t` is the preferred candidate of its name among `c`.
pub open spec fn is_preferred_of(c: Seq<FunctionTarget>, t: FunctionTarget) -> bool {
    exists|i: int| preferred(c, i) && t == c[i]
}

/// No two entries share a canonical name.
pub open spec fn names_distinct(r: Seq<FunctionTarget>) -> bool {
    forall|k1: int, k2: int|
        0 <= k1 < k2 < r.len() ==> (#[trigger] r[k1]).canonical_name != (#[trigger] r[k2]).canonical_name
}

/// `r` is what the requested `names` resolve to among the candidates `c`: one entry for
/// each requested name that some candidate has, and that entry is its preferred candidate.
pub open spec fn is_resolution(
    c: Seq<FunctionTarget>,
    names: Seq<Seq<char>>,
    r: Seq<FunctionTarget>,
) -> bool {
    &&& names_distinct(r)
    &&& forall|k: int|
        0 <= k < r.len() ==> names.contains((#[trigger] r[k]).canonical_name) && is_preferred_of(
            c,
            r[k],
        )
    &&& forall|i: int|
        0 <= i < c.len() && names.contains((#[trigger] c[i]).canonical_name) ==> exists|k: int|
            0 <= k < r.len() && r[k].canonical_name == c[i].canonical_name
}

/// Position of the entry called `name`, if there is one.
fn position_of_name(r: &Vec<FunctionInfo>, name: &String) -> (p: Option<usize>)
    ensures
        match p {
            Some(k) => k < r@.len() && r@[k as int].demangled_name@ == name@,
            None => forall|k: int| 0 <= k < r@.len() ==> (#[trigger] r@[k]).demangled_name@ != name@,
        },
{
    let mut k: usize = 0;
    while k < r.len()
        invariant
            k <= r@.len(),
            forall|j: int| 0 <= j < k ==> (#[trigger] r@[j]).demangled_name@ != name@,
        decreases r@.len() - k,
    {
        if r[k].demangled_name == *name {
            return Some(k);
        }
        k = k + 1;
    }
    None
}

/// The preferred candidate called `name`, if any candidate has that name.
fn preferred_candidate(c: &Vec<FunctionInfo>, name: &String) -> (p: Option<usize>)
    ensures
        match p {
            Some(b) => preferred(targets_view(c@), b as int) && c@[b as int].demangled_name@
                == name@,
            None => forall|i: int| 0 <= i < c@.len() ==> (#[trigger] c@[i]).demangled_name@ != name@,
        },
{
    let ghost cv = targets_view(c@);
    let mut best: Option<usize> = None;
    let mut j: usize = 0;
    while j < c.len()
        invariant
            j <= c@.len(),
            cv == targets_view(c@),
            match best {
                Some(b) => {
                    &&& b < j
                    &&& cv[b as int].canonical_name == name@
                    &&& forall|i: int|
                        0 <= i < j && (#[trigger] cv[i]).canonical_name == name@ ==> cv[b as int].offset
                            < cv[i].offset || (cv[b as int].offset == cv[i].offset && b <= i)
                },
                None => forall|i: int| 0 <= i < j ==> (#[trigger] cv[i]).canonical_name != name@,
            },
        decreases c@.len() - j,
    {
        if c[j].demangled_name == *name {
            match best {
                Some(b) => {
                    if c[j].offset < c[b].offset {
                        best = Some(j);
                    }
                },
                None => {
                    best = Some(j);
                },
            }
        }
        j = j + 1;
    }
    proof {
        if let Some(b) = best {
            assert forall|i: int|
                0 <= i < cv.len() && (#[trigger] cv[i]).canonical_name
                    == cv[b as int].canonical_name implies cv[b as int].offset < cv[i].offset || (
            cv[b as int].offset == cv[i].offset && b <= i) by {}
        } else {
            assert forall|i: int| 0 <= i < c@.len() implies (#[trigger] c@[i]).demangled_name@
                != name@ by {
                assert(cv[i] == c@[i]@);
            }
        }
    }
    best
}

/// A copy of an entry.
fn copy_info(f: &FunctionInfo) -> (r: FunctionInfo)
    ensures
        r@ == f@,
{
    FunctionInfo {
        binary_path: f.binary_path.clone(),
        demangled_name: f.demangled_name.clone(),
        mangled_name: f.mangled_name.clone(),
        offset: f.offset,
    }
}

/// Appends the preferred candidate called `name` to `r`, unless `r` has that name already
/// or no candidate has it.
fn include_name(candidates: &Vec<FunctionInfo>, name: &String, r: &mut Vec<FunctionInfo>)
    requires
        forall|k1: int, k2: int|
            0 <= k1 < k2 < old(r)@.len() ==> (#[trigger] old(r)@[k1])@.canonical_name != (
            #[trigger] old(r)@[k2])@.canonical_name,
    ensures
        forall|k1: int, k2: int|
            0 <= k1 < k2 < final(r)@.len() ==> (#[trigger] final(r)@[k1])@.canonical_name != (
            #[trigger] final(r)@[k2])@.canonical_name,
        old(r)@.len() <= final(r)@.len(),
        forall|k: int| 0 <= k < old(r)@.len() ==> #[trigger] final(r)@[k] == old(r)@[k],
        forall|k: int|
            old(r)@.len() <= k < final(r)@.len() ==> (#[trigger] final(r)@[k])@.canonical_name
                == name@ && is_preferred_of(targets_view(candidates@), final(r)@[k]@),
        forall|i: int|
            0 <= i < candidates@.len() && (#[trigger] candidates@[i])@.canonical_name == name@
                ==> exists|k: int| 0 <= k < final(r)@.len() && final(r)@[k]@.canonical_name == name@,
{
    let ghost cv = targets_view(candidates@);
    if let Some(b) = preferred_candidate(candidates, name) {
        match position_of_name(r, name) {
            Some(k) => {
                assert(r@[k as int]@.canonical_name == name@);
            },
            None => {
                let info = copy_info(&candidates[b]);
                assert(info@ == cv[b as int]);
                r.push(info);
                assert(r@[r@.len() - 1]@.canonical_name == name@);
            },
        }
    }
}

/// Picks, for each requested name, the preferred candidate of that name: the one with
/// the lowest offset, the earliest among equal offsets. Names that no candidate has are
/// left out, and a name requested twice gives one entry.
pub fn select_targets(candidates: &Vec<FunctionInfo>, functions: &Vec<String>) -> (r: Vec<
    FunctionInfo,
>)
    ensures
        is_resolution(targets_view(candidates@), functions.deep_view(), targets_view(r@)),
{
    let ghost cv = targets_view(candidates@);
    let ghost names = functions.deep_view();
    let mut r: Vec<FunctionInfo> = Vec::new();
    let mut m: usize = 0;
    while m < functions.len()
        invariant
            m <= functions@.len(),
            cv == targets_view(candidates@),
            names == functions.deep_view(),
            forall|k1: int, k2: int|
                0 <= k1 < k2 < r@.len() ==> (#[trigger] r@[k1])@.canonical_name != (
                #[trigger] r@[k2])@.canonical_name,
            forall|k: int|
                0 <= k < r@.len() ==> names.contains((#[trigger] r@[k])@.canonical_name)
                    && is_preferred_of(cv, r@[k]@),
            forall|i: int|
                0 <= i < cv.len() && names.subrange(0, m as int).contains(
                    (#[trigger] cv[i]).canonical_name,
                ) ==> exists|k: int| 0 <= k < r@.len() && r@[k]@.canonical_name == cv[i].canonical_name,
        decreases functions@.len() - m,
    {
        let ghost old_r = r@;
        let name = &functions[m];
        assert(names[m as int] == name@);
        include_name(candidates, name, &mut r);
        proof {
            assert(names.contains(name@));
            assert forall|k: int| 0 <= k < r@.len() implies names.contains(
                (#[trigger] r@[k])@.canonical_name,
            ) && is_preferred_of(cv, r@[k]@) by {
                if k < old_r.len() {
                    assert(r@[k] == old_r[k]);
                }
            }
            assert forall|i: int|
                0 <= i < cv.len() && names.subrange(0, m + 1).contains(
                    (#[trigger] cv[i]).canonical_name,
                ) implies exists|k: int|
                0 <= k < r@.len() && r@[k]@.canonical_name == cv[i].canonical_name by {
                let q = choose|q: int|
                    0 <= q < m + 1 && #[trigger] names.subrange(0, m + 1)[q] == cv[i].canonical_name;
                assert(cv[i] == candidates@[i]@);
                if q < m {
                    assert(names.subrange(0, m as int)[q] == cv[i].canonical_name);
                    assert(names.subrange(0, m as int).contains(cv[i].canonical_name));
                    let k = choose|k: int|
                        0 <= k < old_r.len() && old_r[k]@.canonical_name == cv[i].canonical_name;
                    assert(r@[k] == old_r[k]);
                }
            }
        }
        m = m + 1;
    }
    proof {
        let rv = targets_view(r@);
        assert(names.subrange(0, functions@.len() as int) == names);
        assert forall|k1: int, k2: int| 0 <= k1 < k2 < rv.len() implies (#[trigger] rv[k1]).canonical_name
            != (#[trigger] rv[k2]).canonical_name by {
            assert(rv[k1] == r@[k1]@ && rv[k2] == r@[k2]@);
        }
        assert forall|k: int| 0 <= k < rv.len() implies names.contains(
            (#[trigger] rv[k]).canonical_name,
        ) && is_preferred_of(cv, rv[k]) by {
            assert(rv[k] == r@[k]@);
        }
        assert forall|i: int| 0 <= i < cv.len() && names.contains((#[trigger] cv[i]).canonical_name) implies exists|k: int|
            0 <= k < rv.len() && rv[k].canonical_name == cv[i].canonical_name by {
            let k = choose|k: int| 0 <= k < r@.len() && r@[k]@.canonical_name == cv[i].canonical_name;
            assert(rv[k] == r@[k]@);
        }
    }
    r
}

/// The candidates of a symbol table: its named symbols, in table order, each under its
/// canonical name.
pub open spec fn candidates_of(
    path: Seq<char>,
    syms: Seq<(Option<Seq<char>>, u64)>,
) -> Seq<FunctionTarget>
    decreases syms.len(),
{
    if syms.len() == 0 {
        Seq::empty()
    } else {
        let rest = candidates_of(path, syms.drop_last());
        match syms.last().0 {
            Some(name) => rest.push(
                FunctionTarget {
                    binary_path: path,
                    canonical_name: canonical_of(name),
                    mangled_name: name,
                    offset: syms.last().1,
                },
            ),
            None => rest,
        }
    }
}

/// Every candidate of a binary carries that binary's path.
pub proof fn lemma_candidates_path(path: Seq<char>, syms: Seq<(Option<Seq<char>>, u64)>)
    ensures
        forall|i: int|
            0 <= i < candidates_of(path, syms).len() ==> (#[trigger] candidates_of(path, syms)[i]).binary_path
                == path,
    decreases syms.len(),
{
    if syms.len() > 0 {
        let rest = candidates_of(path, syms.drop_last());
        lemma_candidates_path(path, syms.drop_last());
        let c = candidates_of(path, syms);
        assert forall|i: int| 0 <= i < c.len() implies (#[trigger] c[i]).binary_path == path by {
            if i < rest.len() {
                assert(c[i] == rest[i]);
            }
        }
    }
}

/// The candidate that a named symbol gives.
pub open spec fn symbol_target(path: Seq<char>, name: Seq<char>, value: u64) -> FunctionTarget {
    FunctionTarget { binary_path: path, canonical_name: canonical_of(name), mangled_name: name, offset: value }
}

/// The named symbol that candidate `i` comes from.
pub proof fn lemma_candidate_source(path: Seq<char>, syms: Seq<(Option<Seq<char>>, u64)>, i: int) -> (j:
    int)
    requires
        0 <= i < candidates_of(path, syms).len(),
    ensures
        0 <= j < syms.len(),
        syms[j].0 is Some,
        candidates_of(path, syms)[i] == symbol_target(path, syms[j].0->Some_0, syms[j].1),
    decreases syms.len(),
{
    let prefix = syms.drop_last();
    let rest = candidates_of(path, prefix);
    if i < rest.len() {
        let j = lemma_candidate_source(path, prefix, i);
        assert(prefix[j] == syms[j]);
        j
    } else {
        assert(syms.last().0 is Some);
        syms.len() - 1
    }
}

/// The candidate that named symbol `j` gives.
pub proof fn lemma_symbol_candidate(path: Seq<char>, syms: Seq<(Option<Seq<char>>, u64)>, j: int) -> (i:
    int)
    requires
        0 <= j < syms.len(),
        syms[j].0 is Some,
    ensures
        0 <= i < candidates_of(path, syms).len(),
        candidates_of(path, syms)[i] == symbol_target(path, syms[j].0->Some_0, syms[j].1),
    decreases syms.len(),
{
    let prefix = syms.drop_last();
    let rest = candidates_of(path, prefix);
    if j < prefix.len() {
        assert(prefix[j] == syms[j]);
        let i = lemma_symbol_candidate(path, prefix, j);
        assert(candidates_of(path, syms)[i] == rest[i]);
        i
    } else {
        assert(syms[j] == syms.last());
        rest.len() as int
    }
}

/// The first candidate called `name` with offset `v`, given one at `i0`.
proof fn lemma_first_with(c: Seq<FunctionTarget>, name: Seq<char>, v: u64, i0: int) -> (f: int)
    requires
        0 <= i0 < c.len(),
        c[i0].canonical_name == name,
        c[i0].offset == v,
    ensures
        0 <= f <= i0,
        c[f].canonical_name == name,
        c[f].offset == v,
        forall|i: int| 0 <= i < f ==> !((#[trigger] c[i]).canonical_name == name && c[i].offset == v),
    decreases i0,
{
    if exists|i: int| 0 <= i < i0 && c[i].canonical_name == name && c[i].offset == v {
        let i = choose|i: int| 0 <= i < i0 && c[i].canonical_name == name && c[i].offset == v;
        lemma_first_with(c, name, v, i)
    } else {
        i0
    }
}

/// A requested name that some symbol canonicalizes to resolves, in that binary, to an
/// entry of that name whose offset is the lowest value among the symbols of that name.
pub proof fn lemma_requested_symbol_resolves(
    path: Seq<char>,
    syms: Seq<(Option<Seq<char>>, u64)>,
    names: Seq<Seq<char>>,
    j: int,
)
    requires
        0 <= j < syms.len(),
        syms[j].0 is Some,
        names.contains(canonical_of(syms[j].0->Some_0)),
        forall|j2: int|
            0 <= j2 < syms.len() && (#[trigger] syms[j2]).0 is Some && canonical_of(syms[j2].0->Some_0)
                == canonical_of(syms[j].0->Some_0) ==> syms[j].1 <= syms[j2].1,
    ensures
        resolved_lookup(candidates_of(path, syms), names, canonical_of(syms[j].0->Some_0)) matches Some(t)
            && t.binary_path == path && t.canonical_name == canonical_of(syms[j].0->Some_0) && t.offset
            == syms[j].1,
{
    let c = candidates_of(path, syms);
    let name = canonical_of(syms[j].0->Some_0);
    let v = syms[j].1;
    let i0 = lemma_symbol_candidate(path, syms, j);
    let f = lemma_first_with(c, name, v, i0);
    assert forall|i: int|
        0 <= i < c.len() && (#[trigger] c[i]).canonical_name == c[f].canonical_name implies c[f].offset
        < c[i].offset || (c[f].offset == c[i].offset && f <= i) by {
        let j2 = lemma_candidate_source(path, syms, i);
        assert(syms[j].1 <= syms[j2].1);
    }
    assert(preferred(c, f));
    let jf = lemma_candidate_source(path, syms, f);
    assert(c[f].binary_path == path);
    assert(preferred(c, f) && c[f].canonical_name == name);
    let g = choose|g: int| preferred(c, g) && c[g].canonical_name == name;
    lemma_preferred_unique(c, f, g);
    assert(resolved_lookup(c, names, name) == Some(c[f]));
}

/// A name that no symbol canonicalizes to resolves to nothing.
pub proof fn lemma_absent_name_unresolved(
    path: Seq<char>,
    syms: Seq<(Option<Seq<char>>, u64)>,
    names: Seq<Seq<char>>,
    name: Seq<char>,
)
    requires
        forall|j: int|
            0 <= j < syms.len() && (#[trigger] syms[j]).0 is Some ==> canonical_of(syms[j].0->Some_0) != name,
    ensures
        resolved_lookup(candidates_of(path, syms), names, name) is None,
{
    let c = candidates_of(path, syms);
    if exists|i: int| preferred(c, i) && c[i].canonical_name == name {
        let i = choose|i: int| preferred(c, i) && c[i].canonical_name == name;
        let j = lemma_candidate_source(path, syms, i);
        assert(syms[j].0 is Some);
    }
}

/// The entry called `name` in `r`, if there is one.
pub open spec fn find_name(r: Seq<FunctionTarget>, name: Seq<char>) -> Option<FunctionTarget> {
    if exists|k: int| 0 <= k < r.len() && r[k].canonical_name == name {
        Some(r[choose|k: int| 0 <= k < r.len() && r[k].canonical_name == name])
    } else {
        None
    }
}

/// What a requested name resolves to among the candidates `c`: its preferred candidate,
/// or nothing where the name is not requested or no candidate has it.
pub open spec fn resolved_lookup(
    c: Seq<FunctionTarget>,
    names: Seq<Seq<char>>,
    name: Seq<char>,
) -> Option<FunctionTarget> {
    if names.contains(name) && exists|i: int| preferred(c, i) && c[i].canonical_name == name {
        Some(c[choose|i: int| preferred(c, i) && c[i].canonical_name == name])
    } else {
        None
    }
}

/// Two preferred candidates of one name are the same candidate.
pub proof fn lemma_preferred_unique(c: Seq<FunctionTarget>, i: int, j: int)
    requires
        preferred(c, i),
        preferred(c, j),
        c[i].canonical_name == c[j].canonical_name,
    ensures
        i == j,
{
    assert(c[i].offset < c[j].offset || (c[i].offset == c[j].offset && i <= j));
    assert(c[j].offset < c[i].offset || (c[j].offset == c[i].offset && j <= i));
}

/// A resolution answers every name as `resolved_lookup` does.
pub proof fn lemma_resolution_lookup(
    c: Seq<FunctionTarget>,
    names: Seq<Seq<char>>,
    r: Seq<FunctionTarget>,
    name: Seq<char>,
)
    requires
        is_resolution(c, names, r),
    ensures
        find_name(r, name) == resolved_lookup(c, names, name),
{
    if exists|k: int| 0 <= k < r.len() && r[k].canonical_name == name {
        let k = choose|k: int| 0 <= k < r.len() && r[k].canonical_name == name;
        assert(names.contains(r[k].canonical_name));
        let i = choose|i: int| preferred(c, i) && r[k] == c[i];
        assert(preferred(c, i) && c[i].canonical_name == name);
        let i2 = choose|i2: int| preferred(c, i2) && c[i2].canonical_name == name;
        lemma_preferred_unique(c, i, i2);
    } else if names.contains(name) && exists|i: int| preferred(c, i) && c[i].canonical_name == name {
        let i = choose|i: int| preferred(c, i) && c[i].canonical_name == name;
        assert(names.contains(c[i].canonical_name));
        let k = choose|k: int| 0 <= k < r.len() && r[k].canonical_name == c[i].canonical_name;
        assert(false);
    }
}

/// Resolves the requested function names against the symbols of one binary.
pub fn resolve_symbols(binary_path: &str, symbols: &Vec<SymbolEntry>, functions: &Vec<String>) -> (r:
    Vec<FunctionInfo>)
    ensures
        is_resolution(
            candidates_of(binary_path@, symbols_view(symbols@)),
            functions.deep_view(),
            targets_view(r@),
        ),
        forall|name: Seq<char>|
            #[trigger] find_name(targets_view(r@), name) == resolved_lookup(
                candidates_of(binary_path@, symbols_view(symbols@)),
                functions.deep_view(),
                name,
            ),
{
    let ghost sv = symbols_view(symbols@);
    let mut candidates: Vec<FunctionInfo> = Vec::new();
    let mut i: usize = 0;
    while i < symbols.len()
        invariant
            i <= symbols@.len(),
            sv == symbols_view(symbols@),
            targets_view(candidates@) == candidates_of(binary_path@, sv.subrange(0, i as int)),
        decreases symbols@.len() - i,
    {
        let ghost before = targets_view(candidates@);
        assert(sv.subrange(0, i + 1).drop_last() == sv.subrange(0, i as int));
        assert(sv.subrange(0, i + 1).last() == symbols@[i as int]@);
        match &symbols[i].name {
            Some(name) => {
                let info = FunctionInfo {
                    binary_path: String::from_str(binary_path),
                    demangled_name: canonical_name(name.as_str()),
                    mangled_name: name.clone(),
                    offset: symbols[i].value,
                };
                candidates.push(info);
                assert(targets_view(candidates@) == before.push(info@));
            },
            None => {},
        }
        i = i + 1;
    }
    assert(sv.subrange(0, symbols@.len() as int) == sv);
    let r = select_targets(&candidates, functions);
    proof {
        assert forall|name: Seq<char>|
            #[trigger] find_name(targets_view(r@), name) == resolved_lookup(
                candidates_of(binary_path@, sv),
                functions.deep_view(),
                name,
            ) by {
            lemma_resolution_lookup(
                candidates_of(binary_path@, sv),
                functions.deep_view(),
                targets_view(r@),
                name,
            );
        }
    }
    r
}

/// goblin's parse error, carried without looking inside.
#[verifier::external_type_specification]
#[verifier::external_body]
pub struct ExGoblinError(goblin::error::Error);

/// The symbol table that goblin reads from an executable image: each symbol in table
/// order, with its name where the string table holds one and its value; nothing where
/// the image does not parse.
pub uninterp spec fn elf_symbols_of(image: Seq<u8>) -> Option<Seq<(Option<Seq<char>>, u64)>>;

/// Relies on goblin::elf::Elf::parse, its `syms` table and `strtab.get_at`: the result
/// depends on the image alone.
#[verifier::external_body]
fn read_symbol_table(image: &[u8]) -> (r: Result<Vec<SymbolEntry>, goblin::error::Error>)
    ensures
        match r {
            Ok(v) => elf_symbols_of(image@) == Some(symbols_view(v@)),
            Err(_) => elf_symbols_of(image@) is None,
        },
{
    let elf = goblin::elf::Elf::parse(image)?;
    Ok(
        elf.syms.iter().map(
            |sym| SymbolEntry { name: elf.strtab.get_at(sym.st_name).map(|n| n.to_string()), value: sym.st_value },
        ).collect(),
    )
}

/// Why a binary's functions could not be resolved.
pub enum ResolveError {
    /// The image is not an object file that goblin can parse.
    Malformed { binary_path: String },
}

/// Lists the symbols of an executable image.
pub fn symbol_table(binary_path: &str, image: &[u8]) -> (r: Result<Vec<SymbolEntry>, ResolveError>)
    ensures
        match r {
            Ok(v) => elf_symbols_of(image@) == Some(symbols_view(v@)),
            Err(ResolveError::Malformed { binary_path: p }) => elf_symbols_of(image@) is None
                && p@ == binary_path@,
        },
{
    match read_symbol_table(image) {
        Ok(v) => Ok(v),
        Err(_) => Err(ResolveError::Malformed { binary_path: String::from_str(binary_path) }),
    }
}

/// No two entries share a binary and a canonical name.
pub open spec fn keys_unique(e: Seq<FunctionTarget>) -> bool {
    forall|i: int, j: int|
        0 <= i < j < e.len() ==> !((#[trigger] e[i]).binary_path == (#[trigger] e[j]).binary_path
            && e[i].canonical_name == e[j].canonical_name)
}

/// The entry for `name` in the binary at `path`, if there is one.
pub open spec fn lookup(e: Seq<FunctionTarget>, path: Seq<char>, name: Seq<char>) -> Option<
    FunctionTarget,
> {
    if exists|i: int| 0 <= i < e.len() && e[i].binary_path == path && e[i].canonical_name == name {
        Some(
            e[choose|i: int|
                0 <= i < e.len() && e[i].binary_path == path && e[i].canonical_name == name],
        )
    } else {
        None
    }
}

/// Where keys are unique, the entry with a key is what `lookup` gives for it.
pub proof fn lemma_lookup_at(e: Seq<FunctionTarget>, i: int)
    requires
        keys_unique(e),
        0 <= i < e.len(),
    ensures
        lookup(e, e[i].binary_path, e[i].canonical_name) == Some(e[i]),
{
    let path = e[i].binary_path;
    let name = e[i].canonical_name;
    let c = choose|c: int| 0 <= c < e.len() && e[c].binary_path == path && e[c].canonical_name == name;
    if c < i {
        assert(!(e[c].binary_path == e[i].binary_path && e[c].canonical_name == e[i].canonical_name));
    } else if c > i {
        assert(!(e[i].binary_path == e[c].binary_path && e[i].canonical_name == e[c].canonical_name));
    }
}

/// Where names are distinct, the entry with a name is what `find_name` gives for it.
pub proof fn lemma_find_name_at(r: Seq<FunctionTarget>, k: int)
    requires
        names_distinct(r),
        0 <= k < r.len(),
    ensures
        find_name(r, r[k].canonical_name) == Some(r[k]),
{
    let name = r[k].canonical_name;
    let c = choose|c: int| 0 <= c < r.len() && r[c].canonical_name == name;
    if c < k {
        assert(r[c].canonical_name != r[k].canonical_name);
    } else if c > k {
        assert(r[k].canonical_name != r[c].canonical_name);
    }
}

/// The resolved functions of every binary, keyed by binary path and canonical name.
pub struct OffsetTracker {
    offsets: Vec<FunctionInfo>,
}

impl View for OffsetTracker {
    type V = Seq<FunctionTarget>;

    closed spec fn view(&self) -> Seq<FunctionTarget> {
        targets_view(self.offsets@)
    }
}

impl OffsetTracker {
    /// No two entries share a binary and a canonical name.
    pub open spec fn well_formed(&self) -> bool {
        keys_unique(self@)
    }

    /// A tracker with no binary.
    pub fn new() -> (r: OffsetTracker)
        ensures
            r.well_formed(),
            r@.len() == 0,
    {
        OffsetTracker { offsets: Vec::new() }
    }

    /// Position of the entry for `name` in the binary at `path`.
    fn position(&self, path: &str, name: &str) -> (p: Option<usize>)
        requires
            self.well_formed(),
        ensures
            match p {
                Some(i) => i < self@.len() && Some(self@[i as int]) == lookup(self@, path@, name@),
                None => lookup(self@, path@, name@) is None,
            },
    {
        let path_s = String::from_str(path);
        let name_s = String::from_str(name);
        let mut i: usize = 0;
        while i < self.offsets.len()
            invariant
                i <= self@.len(),
                self.well_formed(),
                path_s@ == path@,
                name_s@ == name@,
                forall|j: int|
                    0 <= j < i ==> !((#[trigger] self@[j]).binary_path == path@
                        && self@[j].canonical_name == name@),
            decreases self@.len() - i,
        {
            if self.offsets[i].binary_path == path_s && self.offsets[i].demangled_name == name_s {
                let ghost e = self@;
                assert(e[i as int] == self.offsets@[i as int]@);
                assert(0 <= i < e.len() && e[i as int].binary_path == path@ && e[i as int].canonical_name
                    == name@);
                let ghost c = choose|c: int|
                    0 <= c < e.len() && e[c].binary_path == path@ && e[c].canonical_name == name@;
                assert(c == i) by {
                    if c < i {
                        assert(!(e[c].binary_path == e[i as int].binary_path && e[c].canonical_name
                            == e[i as int].canonical_name));
                    } else if c > i {
                        assert(!(e[i as int].binary_path == e[c].binary_path && e[i as int].canonical_name
                            == e[c].canonical_name));
                    }
                }
                assert(lookup(e, path@, name@) == Some(e[i as int]));
                return Some(i);
            }
            assert(self@[i as int] == self.offsets@[i as int]@);
            i = i + 1;
        }
        None
    }

    /// The symbol under which `demangled_name` was found in `binary_path`.
    pub fn get_mangled_name(&self, binary_path: &str, demangled_name: &str) -> (r: Option<&str>)
        requires
            self.well_formed(),
        ensures
            match lookup(self@, binary_path@, demangled_name@) {
                Some(t) => r is Some && r->0@ == t.mangled_name,
                None => r is None,
            },
    {
        match self.position(binary_path, demangled_name) {
            Some(i) => {
                assert(self@[i as int] == self.offsets@[i as int]@);
                Some(self.offsets[i].mangled_name.as_str())
            },
            None => None,
        }
    }

    /// The offset at which `demangled_name` was found in `binary_path`.
    pub fn get_offset(&self, binary_path: &str, demangled_name: &str) -> (r: Option<u64>)
        requires
            self.well_formed(),
        ensures
            match lookup(self@, binary_path@, demangled_name@) {
                Some(t) => r == Some(t.offset),
                None => r is None,
            },
    {
        match self.position(binary_path, demangled_name) {
            Some(i) => {
                assert(self@[i as int] == self.offsets@[i as int]@);
                Some(self.offsets[i].offset)
            },
            None => None,
        }
    }

    /// Replaces the entries of the binary at `path` by `resolved`.
        fn replace_binary(&mut self, path: &str, resolved: Vec<FunctionInfo>)
        requires
            old(self).well_formed(),
            names_distinct(targets_view(resolved@)),
            forall|k: int| 0 <= k < resolved@.len() ==> (#[trigger] resolved@[k])@.binary_path == path@,
        ensures
            final(self).well_formed(),
            forall|p: Seq<char>, n: Seq<char>|
                p != path@ ==> #[trigger] lookup(final(self)@, p, n) == lookup(old(self)@, p, n),
            forall|n: Seq<char>|
                #[trigger] lookup(final(self)@, path@, n) == find_name(targets_view(resolved@), n),
    {
        let ghost ov = self@;
        let ghost rv = targets_view(resolved@);
        let path_s = String::from_str(path);
        let mut kept: Vec<FunctionInfo> = Vec::new();
        let mut i: usize = 0;
        while i < self.offsets.len()
            invariant
                i <= ov.len(),
                ov == self@,
                keys_unique(ov),
                path_s@ == path@,
                keys_unique(targets_view(kept@)),
                forall|k: int|
                    0 <= k < kept@.len() ==> (#[trigger] kept@[k])@.binary_path != path@ && exists|
                        j: int,
                    | 0 <= j < i && kept@[k]@ == ov[j],
                forall|j: int|
                    0 <= j < i && (#[trigger] ov[j]).binary_path != path@ ==> exists|k: int|
                        0 <= k < kept@.len() && kept@[k]@ == ov[j],
            decreases ov.len() - i,
        {
            let ghost before = kept@;
            assert(ov[i as int] == self.offsets@[i as int]@);
            if self.offsets[i].binary_path != path_s {
                let info = copy_info(&self.offsets[i]);
                kept.push(info);
                proof {
                    let kv = targets_view(kept@);
                    assert forall|a: int, b: int| 0 <= a < b < kv.len() implies !((#[trigger] kv[a]).binary_path
                        == (#[trigger] kv[b]).binary_path && kv[a].canonical_name == kv[b].canonical_name) by {
                        assert(kv[a] == kept@[a]@);
                        assert(kv[b] == kept@[b]@);
                        if b < before.len() {
                            assert(kept@[a] == before[a] && kept@[b] == before[b]);
                            assert(targets_view(before)[a] == kv[a] && targets_view(before)[b] == kv[b]);
                        } else {
                            assert(kept@[a] == before[a]);
                            let j = choose|j: int| 0 <= j < i && before[a]@ == ov[j];
                            assert(!(ov[j].binary_path == ov[i as int].binary_path && ov[j].canonical_name
                                == ov[i as int].canonical_name));
                        }
                    }
                    assert forall|k: int| 0 <= k < kept@.len() implies (#[trigger] kept@[k])@.binary_path
                        != path@ && exists|j: int| 0 <= j < i + 1 && kept@[k]@ == ov[j] by {
                        if k < before.len() {
                            assert(kept@[k] == before[k]);
                        }
                    }
                    assert forall|j: int| 0 <= j < i + 1 && (#[trigger] ov[j]).binary_path != path@ implies exists|k: int|
                        0 <= k < kept@.len() && kept@[k]@ == ov[j] by {
                        if j < i {
                            let k = choose|k: int| 0 <= k < before.len() && before[k]@ == ov[j];
                            assert(kept@[k] == before[k]);
                        } else {
                            assert(kept@[before.len() as int]@ == ov[j]);
                        }
                    }
                }
            }
            i = i + 1;
        }
        let ghost base = kept@.len();
        let ghost kept_part = kept@;
        let mut t: usize = 0;
        while t < resolved.len()
            invariant
                t <= rv.len(),
                rv == targets_view(resolved@),
                names_distinct(rv),
                forall|k: int| 0 <= k < rv.len() ==> (#[trigger] rv[k]).binary_path == path@,
                kept@.len() == base + t,
                forall|k: int| 0 <= k < base ==> #[trigger] kept@[k] == kept_part[k],
                forall|k: int| 0 <= k < base ==> (#[trigger] kept_part[k])@.binary_path != path@,
                forall|k: int| 0 <= k < t ==> kept@[base + k]@ == #[trigger] rv[k],
                keys_unique(targets_view(kept@)),
            decreases rv.len() - t,
        {
            let ghost before = kept@;
            assert(rv[t as int] == resolved@[t as int]@);
            assert(rv[t as int].binary_path == path@);
            let info = copy_info(&resolved[t]);
            kept.push(info);
            proof {
                let kv = targets_view(kept@);
                assert forall|a: int, b: int| 0 <= a < b < kv.len() implies !((#[trigger] kv[a]).binary_path
                    == (#[trigger] kv[b]).binary_path && kv[a].canonical_name == kv[b].canonical_name) by {
                    assert(kv[a] == kept@[a]@);
                    assert(kv[b] == kept@[b]@);
                    if b < before.len() {
                        assert(kept@[a] == before[a] && kept@[b] == before[b]);
                        assert(targets_view(before)[a] == kv[a] && targets_view(before)[b] == kv[b]);
                    } else if a < base {
                        assert(kept@[a] == kept_part[a]);
                    } else {
                        assert(kept@[a] == before[a]);
                        assert(kept@[a]@ == rv[a - base]);
                        assert(rv[a - base].canonical_name != rv[t as int].canonical_name);
                    }
                }
                assert forall|k: int| 0 <= k < t + 1 implies kept@[base + k]@ == #[trigger] rv[k] by {
                    if k < t {
                        assert(kept@[base + k] == before[base + k]);
                    }
                }
            }
            t = t + 1;
        }
        self.offsets = kept;
        proof {
            let nv = self@;
            assert(nv.len() == base + rv.len());
            assert forall|k: int| 0 <= k < base implies (#[trigger] nv[k]).binary_path != path@ && exists|j: int|
                0 <= j < ov.len() && nv[k] == ov[j] by {
                assert(nv[k] == kept_part[k]@);
            }
            assert forall|k: int| 0 <= k < rv.len() implies #[trigger] nv[base + k] == rv[k] by {
                assert(nv[base + k] == self.offsets@[base + k]@);
            }
            assert forall|p: Seq<char>, n: Seq<char>|
                p != path@ implies #[trigger] lookup(nv, p, n) == lookup(ov, p, n) by {
                if exists|j: int| 0 <= j < ov.len() && ov[j].binary_path == p && ov[j].canonical_name == n {
                    let j = choose|j: int| 0 <= j < ov.len() && ov[j].binary_path == p && ov[j].canonical_name == n;
                    lemma_lookup_at(ov, j);
                    let k = choose|k: int| 0 <= k < kept_part.len() && kept_part[k]@ == ov[j];
                    assert(nv[k] == kept_part[k]@);
                    lemma_lookup_at(nv, k);
                } else if exists|k: int| 0 <= k < nv.len() && nv[k].binary_path == p && nv[k].canonical_name == n {
                    let k = choose|k: int| 0 <= k < nv.len() && nv[k].binary_path == p && nv[k].canonical_name == n;
                    if k < base {
                        let j = choose|j: int| 0 <= j < ov.len() && nv[k] == ov[j];
                    } else {
                        assert(nv[base + (k - base)] == rv[k - base]);
                    }
                }
            }
            assert forall|n: Seq<char>|
                #[trigger] lookup(nv, path@, n) == find_name(rv, n) by {
                if exists|k: int| 0 <= k < rv.len() && rv[k].canonical_name == n {
                    let k = choose|k: int| 0 <= k < rv.len() && rv[k].canonical_name == n;
                    lemma_find_name_at(rv, k);
                    assert(nv[base + k] == rv[k]);
                    lemma_lookup_at(nv, base + k);
                } else if exists|k: int| 0 <= k < nv.len() && nv[k].binary_path == path@ && nv[k].canonical_name == n {
                    let k = choose|k: int| 0 <= k < nv.len() && nv[k].binary_path == path@ && nv[k].canonical_name == n;
                    if k >= base {
                        assert(nv[base + (k - base)] == rv[k - base]);
                    }
                }
            }
        }
    }

    /// Resolves the requested functions of the binary at `binary_path`, whose image is
    /// `image`, and records them in place of what was known of that binary. An image
    /// that does not parse is an error and leaves the tracker as it was.
    pub fn add_binary(&mut self, binary_path: &str, image: &[u8], functions: &Vec<String>) -> (r:
        Result<(), ResolveError>)
        requires
            old(self).well_formed(),
        ensures
            final(self).well_formed(),
            r is Err <==> elf_symbols_of(image@) is None,
            r is Err ==> final(self)@ == old(self)@,
            r is Ok ==> forall|p: Seq<char>, n: Seq<char>|
                p != binary_path@ ==> #[trigger] lookup(final(self)@, p, n) == lookup(old(self)@, p, n),
            r is Ok ==> forall|n: Seq<char>|
                #[trigger] lookup(final(self)@, binary_path@, n) == resolved_lookup(
                    candidates_of(binary_path@, elf_symbols_of(image@)->Some_0),
                    functions.deep_view(),
                    n,
                ),
    {
        let symbols = match symbol_table(binary_path, image) {
            Ok(v) => v,
            Err(e) => {
                return Err(e);
            },
        };
        let resolved = resolve_symbols(binary_path, &symbols, functions);
        proof {
            let c = candidates_of(binary_path@, symbols_view(symbols@));
            lemma_candidates_path(binary_path@, symbols_view(symbols@));
            assert forall|k: int| 0 <= k < resolved@.len() implies (#[trigger] resolved@[k])@.binary_path
                == binary_path@ by {
                assert(targets_view(resolved@)[k] == resolved@[k]@);
                let i = choose|i: int| preferred(c, i) && targets_view(resolved@)[k] == c[i];
            }
        }
        self.replace_binary(binary_path, resolved);
        Ok(())
    }

    /// Every resolved function, over all binaries.
    pub fn targets(&self) -> (r: Vec<FunctionInfo>)
        ensures
            targets_view(r@) == self@,
    {
        let mut r: Vec<FunctionInfo> = Vec::new();
        let mut i: usize = 0;
        while i < self.offsets.len()
            invariant
                i <= self.offsets@.len(),
                targets_view(r@) == targets_view(self.offsets@).subrange(0, i as int),
            decreases self.offsets@.len() - i,
        {
            let ghost before = targets_view(r@);
            let info = copy_info(&self.offsets[i]);
            r.push(info);
            assert(targets_view(r@) =~= before.push(info@));
            assert(info@ == targets_view(self.offsets@)[i as int]);
            assert(targets_view(r@) =~= targets_view(self.offsets@).subrange(0, i + 1));
            i = i + 1;
        }
        assert(targets_view(self.offsets@).subrange(0, i as int) =~= targets_view(self.offsets@));
        r
    }
}

} // verus!
