use vstd::prelude::*;
use crate::errors::ParseError;

verus! {

/// One section of the object container: its name (if the container could
/// read it), its declared index, its header size, its byte payload (if the
/// container could read it) and its relocation entries.
pub struct SectionRec {
    pub name: Option<String>,
    pub index: u64,
    pub size: u64,
    pub data: Option<Vec<u8>>,
    pub relocations: Vec<RelocRec>,
}

/// One relocation entry of a section: the byte offset it patches and the
/// index of its target symbol. `symbol` is `None` for relocation targets
/// that are not symbols; those entries are skipped, by design.
pub struct RelocRec {
    pub offset: u64,
    pub symbol: Option<u64>,
}

/// One symbol of the object container: its name (if readable), its address
/// within its owning section, its declared size, and the index of the
/// owning section (if any).
pub struct SymbolRec {
    pub name: Option<String>,
    pub address: u64,
    pub size: u64,
    pub section: Option<u64>,
}

/// A read-only view of one parsed object file: its sections in container
/// order and its symbols in container enumeration order. The decoder never
/// mutates it.
pub struct ObjectView {
    pub sections: Vec<SectionRec>,
    pub symbols: Vec<SymbolRec>,
}

/// Positions (into `ObjectView::sections`) of the sections the decoder
/// works on: the single rodata section, the text section, and every debug
/// section in container order.
#[derive(Debug)]
pub struct Located {
    pub rodata: Option<usize>,
    pub text: Option<usize>,
    pub debug: Vec<usize>,
}

/// `s` begins with `prefix`.
pub open spec fn spec_starts_with(s: Seq<char>, prefix: Seq<char>) -> bool {
    s.len() >= prefix.len() && s.subrange(0, prefix.len() as int) == prefix
}

/// The section holds read-only data: its name begins with `.rodata`
/// (plain or suffixed, e.g. `.rodata.str1.1`).
pub open spec fn sec_is_rodata(s: SectionRec) -> bool {
    s.name matches Some(n) && spec_starts_with(n@, ".rodata"@)
}

/// The section is the text section: its name is exactly `.text`.
pub open spec fn sec_is_text(s: SectionRec) -> bool {
    s.name matches Some(n) && n@ == ".text"@
}

/// The section carries debug information: its name begins with `.debug`.
pub open spec fn sec_is_debug(s: SectionRec) -> bool {
    s.name matches Some(n) && spec_starts_with(n@, ".debug"@)
}

/// How many sections of `ss` carry the rodata name prefix.
pub open spec fn count_rodata(ss: Seq<SectionRec>) -> int
    decreases ss.len(),
{
    if ss.len() == 0 {
        0
    } else {
        count_rodata(ss.drop_last()) + (if sec_is_rodata(ss.last()) {
            1int
        } else {
            0int
        })
    }
}

/// The positions of the debug sections of `ss`, in container order.
pub open spec fn debug_indices(ss: Seq<SectionRec>) -> Seq<int>
    decreases ss.len(),
{
    if ss.len() == 0 {
        Seq::empty()
    } else {
        debug_indices(ss.drop_last()) + (if sec_is_debug(ss.last()) {
            seq![ss.len() - 1]
        } else {
            Seq::empty()
        })
    }
}

/// The position of the first rodata-prefixed section of `ss`.
pub open spec fn first_rodata(ss: Seq<SectionRec>) -> Option<int>
    decreases ss.len(),
{
    if ss.len() == 0 {
        None
    } else if sec_is_rodata(ss[0]) {
        Some(0int)
    } else {
        match first_rodata(ss.drop_first()) {
            Some(i) => Some(i + 1),
            None => None,
        }
    }
}

/// The position of the first section named exactly `.text`.
pub open spec fn first_text(ss: Seq<SectionRec>) -> Option<int>
    decreases ss.len(),
{
    if ss.len() == 0 {
        None
    } else if sec_is_text(ss[0]) {
        Some(0int)
    } else {
        match first_text(ss.drop_first()) {
            Some(i) => Some(i + 1),
            None => None,
        }
    }
}

pub proof fn lemma_first_rodata(ss: Seq<SectionRec>)
    ensures
        match first_rodata(ss) {
            Some(k) => 0 <= k < ss.len() && sec_is_rodata(ss[k]) && forall|j: int|
                0 <= j < k ==> !sec_is_rodata(#[trigger] ss[j]),
            None => forall|j: int| 0 <= j < ss.len() ==> !sec_is_rodata(#[trigger] ss[j]),
        },
    decreases ss.len(),
{
    if ss.len() > 0 && !sec_is_rodata(ss[0]) {
        let d = ss.drop_first();
        lemma_first_rodata(d);
        assert(forall|j: int| 0 <= j < d.len() ==> #[trigger] d[j] == ss[j + 1]);
        match first_rodata(d) {
            Some(i) => {
                assert forall|j: int| 0 <= j < i + 1 implies !sec_is_rodata(#[trigger] ss[j]) by {
                    if j > 0 {
                        assert(d[j - 1] == ss[j]);
                    }
                }
            },
            None => {
                assert forall|j: int| 0 <= j < ss.len() implies !sec_is_rodata(
                    #[trigger] ss[j],
                ) by {
                    if j > 0 {
                        assert(d[j - 1] == ss[j]);
                    }
                }
            },
        }
    }
}

pub proof fn lemma_first_text(ss: Seq<SectionRec>)
    ensures
        match first_text(ss) {
            Some(k) => 0 <= k < ss.len() && sec_is_text(ss[k]) && forall|j: int|
                0 <= j < k ==> !sec_is_text(#[trigger] ss[j]),
            None => forall|j: int| 0 <= j < ss.len() ==> !sec_is_text(#[trigger] ss[j]),
        },
    decreases ss.len(),
{
    if ss.len() > 0 && !sec_is_text(ss[0]) {
        let d = ss.drop_first();
        lemma_first_text(d);
        assert(forall|j: int| 0 <= j < d.len() ==> #[trigger] d[j] == ss[j + 1]);
        match first_text(d) {
            Some(i) => {
                assert forall|j: int| 0 <= j < i + 1 implies !sec_is_text(#[trigger] ss[j]) by {
                    if j > 0 {
                        assert(d[j - 1] == ss[j]);
                    }
                }
            },
            None => {
                assert forall|j: int| 0 <= j < ss.len() implies !sec_is_text(#[trigger] ss[j]) by {
                    if j > 0 {
                        assert(d[j - 1] == ss[j]);
                    }
                }
            },
        }
    }
}

pub proof fn lemma_debug_indices(ss: Seq<SectionRec>)
    ensures
        forall|j: int|
            0 <= j < debug_indices(ss).len() ==> 0 <= #[trigger] debug_indices(ss)[j] < ss.len()
                && sec_is_debug(ss[debug_indices(ss)[j]]),
    decreases ss.len(),
{
    if ss.len() > 0 {
        lemma_debug_indices(ss.drop_last());
        assert(forall|j: int|
            0 <= j < ss.drop_last().len() ==> #[trigger] ss.drop_last()[j] == ss[j]);
        let pre = debug_indices(ss.drop_last());
        assert forall|j: int| 0 <= j < debug_indices(ss).len() implies 0 <= #[trigger] debug_indices(
            ss,
        )[j] < ss.len() && sec_is_debug(ss[debug_indices(ss)[j]]) by {
            if j < pre.len() {
                assert(debug_indices(ss)[j] == pre[j]);
                assert(ss.drop_last()[pre[j]] == ss[pre[j]]);
            }
        }
    }
}

/// `s` begins with `prefix`, character for character.
pub fn str_has_prefix(s: &str, prefix: &str) -> (r: bool)
    ensures
        r == spec_starts_with(s@, prefix@),
{
    let n = prefix.unicode_len();
    let m = s.unicode_len();
    if m < n {
        return false;
    }
    let mut i: usize = 0;
    while i < n
        invariant
            0 <= i <= n,
            n == prefix@.len(),
            m == s@.len(),
            n <= m,
            forall|j: int| 0 <= j < i ==> s@[j] == prefix@[j],
        decreases n - i,
    {
        if s.get_char(i) != prefix.get_char(i) {
            proof {
                if spec_starts_with(s@, prefix@) {
                    assert(s@.subrange(0, n as int)[i as int] == s@[i as int]);
                }
            }
            return false;
        }
        i += 1;
    }
    proof {
        assert(s@.subrange(0, n as int) =~= prefix@);
    }
    true
}

/// `s` and `t` hold the same characters.
pub fn str_equal(s: &str, t: &str) -> (r: bool)
    ensures
        r == (s@ == t@),
{
    let m = s.unicode_len();
    let n = t.unicode_len();
    if m != n {
        return false;
    }
    let r = str_has_prefix(s, t);
    proof {
        assert(s@.subrange(0, n as int) =~= s@);
    }
    r
}

fn sec_matches_rodata(s: &SectionRec) -> (r: bool)
    ensures
        r == sec_is_rodata(*s),
{
    match &s.name {
        Some(n) => str_has_prefix(n.as_str(), ".rodata"),
        None => false,
    }
}

fn sec_matches_text(s: &SectionRec) -> (r: bool)
    ensures
        r == sec_is_text(*s),
{
    match &s.name {
        Some(n) => str_equal(n.as_str(), ".text"),
        None => false,
    }
}

fn sec_matches_debug(s: &SectionRec) -> (r: bool)
    ensures
        r == sec_is_debug(*s),
{
    match &s.name {
        Some(n) => str_has_prefix(n.as_str(), ".debug"),
        None => false,
    }
}

/// Section locator: selects the single rodata-prefixed section (two or more
/// are a configuration conflict, never a silent pick), the first section
/// named exactly `.text`, and every debug-prefixed section in container
/// order.
pub fn locate_sections(view: &ObjectView) -> (r: Result<Located, ParseError>)
    ensures
        match r {
            Ok(loc) => {
                &&& count_rodata(view.sections@) <= 1
                &&& match loc.rodata {
                    Some(i) => i < view.sections@.len() && sec_is_rodata(view.sections@[i as int])
                        && forall|j: int| 0 <= j < i ==> !sec_is_rodata(view.sections@[j]),
                    None => forall|j: int|
                        0 <= j < view.sections@.len() ==> !sec_is_rodata(view.sections@[j]),
                }
                &&& match loc.text {
                    Some(i) => i < view.sections@.len() && sec_is_text(view.sections@[i as int])
                        && forall|j: int| 0 <= j < i ==> !sec_is_text(view.sections@[j]),
                    None => forall|j: int|
                        0 <= j < view.sections@.len() ==> !sec_is_text(view.sections@[j]),
                }
                &&& loc.debug@.map_values(|u: usize| u as int) == debug_indices(view.sections@)
            },
            Err(e) => e == (ParseError::MultipleRodataSections) && count_rodata(view.sections@)
                >= 2,
        },
{
    let n = view.sections.len();
    let mut rodata: Option<usize> = None;
    let mut text: Option<usize> = None;
    let mut debug: Vec<usize> = Vec::new();
    let mut ro_count: usize = 0;
    let mut i: usize = 0;
    while i < n
        invariant
            0 <= i <= n,
            n == view.sections@.len(),
            ro_count == count_rodata(view.sections@.take(i as int)),
            ro_count <= i,
            match rodata {
                Some(k) => k < i && sec_is_rodata(view.sections@[k as int]) && forall|j: int|
                    0 <= j < k ==> !sec_is_rodata(view.sections@[j]),
                None => forall|j: int| 0 <= j < i ==> !sec_is_rodata(view.sections@[j]),
            },
            match text {
                Some(k) => k < i && sec_is_text(view.sections@[k as int]) && forall|j: int|
                    0 <= j < k ==> !sec_is_text(view.sections@[j]),
                None => forall|j: int| 0 <= j < i ==> !sec_is_text(view.sections@[j]),
            },
            debug@.map_values(|u: usize| u as int) == debug_indices(view.sections@.take(i as int)),
            forall|j: int| 0 <= j < debug@.len() ==> debug@[j] < i,
        decreases n - i,
    {
        let sec = &view.sections[i];
        proof {
            assert(view.sections@.take(i as int + 1).drop_last() =~= view.sections@.take(i as int));
            assert(view.sections@.take(i as int + 1).last() == view.sections@[i as int]);
        }
        if sec_matches_rodata(sec) {
            ro_count = ro_count + 1;
            if rodata.is_none() {
                rodata = Some(i);
            }
        }
        if text.is_none() && sec_matches_text(sec) {
            text = Some(i);
        }
        if sec_matches_debug(sec) {
            debug.push(i);
            proof {
                assert(debug@.map_values(|u: usize| u as int) =~= debug@.drop_last().map_values(
                    |u: usize| u as int,
                ) + seq![i as int]);
            }
        } else {
            proof {
                assert(debug_indices(view.sections@.take(i as int + 1)) == debug_indices(
                    view.sections@.take(i as int),
                ));
            }
        }
        i += 1;
    }
    proof {
        assert(view.sections@.take(n as int) =~= view.sections@);
    }
    if ro_count > 1 {
        return Err(ParseError::MultipleRodataSections);
    }
    Ok(Located { rodata, text, debug })
}

} // verus!
