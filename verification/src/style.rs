//! Styled nodes: a document node joined with its resolved property map.

use vstd::prelude::*;
use crate::css::{
    Rule, RuleView, Selector, SelectorView, SimpleSelector, SimpleSelectorView, Stylesheet,
    StylesheetView, Value, ValueView,
};
use crate::dom::{ElementData, ElementDataView, Node, NodeType, NodeTypeView, NodeView};
use crate::strutil::str_eq;

verus! {

broadcast use {
    vstd::std_specs::vec::axiom_vec_index_decreases,
    vstd::std_specs::vec::axiom_vec_decreases_to_view,
};

/// A mapping from CSS property names to specified values.
///
/// Entries are kept in a list scanned front to back, so the entry
/// nearest the front wins; `insert` prepends, which makes the view obey
/// the usual map-insert law.
#[derive(Debug)]
pub struct PropertyMap {
    entries: Vec<(String, Value)>,
}

/// The map denoted by an entry list: the entry nearest the front wins.
pub open spec fn map_of(s: Seq<(String, Value)>) -> Map<Seq<char>, ValueView>
    decreases s.len(),
{
    if s.len() == 0 {
        Map::empty()
    } else {
        map_of(s.drop_first()).insert(s[0].0@, s[0].1@)
    }
}

impl View for PropertyMap {
    type V = Map<Seq<char>, ValueView>;

    closed spec fn view(&self) -> Map<Seq<char>, ValueView> {
        map_of(self.entries@)
    }
}

/// In the map denoted by an entry list, a key is present exactly when
/// some entry carries it.
proof fn lemma_map_of_contains(s: Seq<(String, Value)>, name: Seq<char>)
    ensures
        map_of(s).contains_key(name) <==> exists|j: int| 0 <= j < s.len() && s[j].0@ == name,
    decreases s.len(),
{
    if s.len() > 0 {
        lemma_map_of_contains(s.drop_first(), name);
        if s[0].0@ != name {
            if map_of(s).contains_key(name) {
                let j = choose|j: int|
                    0 <= j < s.drop_first().len() && s.drop_first()[j].0@ == name;
                assert(s[j + 1].0@ == name);
            }
            if exists|j: int| 0 <= j < s.len() && s[j].0@ == name {
                let j = choose|j: int| 0 <= j < s.len() && s[j].0@ == name;
                assert(s.drop_first()[j - 1].0@ == name);
            }
        }
    }
}

/// The value a key denotes is the one of the frontmost entry carrying it.
proof fn lemma_map_of_value(s: Seq<(String, Value)>, name: Seq<char>, i: int)
    requires
        0 <= i < s.len(),
        s[i].0@ == name,
        forall|j: int| 0 <= j < i ==> s[j].0@ != name,
    ensures
        map_of(s).contains_key(name),
        map_of(s)[name] == s[i].1@,
    decreases s.len(),
{
    if i > 0 {
        assert(s.drop_first()[i - 1] == s[i]);
        assert(forall|j: int| 0 <= j < i - 1 ==> s.drop_first()[j] == s[j + 1]);
        lemma_map_of_value(s.drop_first(), name, i - 1);
    }
}

impl PropertyMap {
    /// An empty property map.
    pub fn new() -> (r: Self)
        ensures
            r@ == Map::<Seq<char>, ValueView>::empty(),
    {
        PropertyMap { entries: Vec::new() }
    }

    /// Record `value` under `name`, shadowing any earlier entry.
    pub fn insert(&mut self, name: String, value: Value)
        ensures
            final(self)@ == old(self)@.insert(name@, value@),
    {
        self.entries.insert(0, (name, value));
        proof {
            assert(self.entries@.drop_first() =~= old(self).entries@);
        }
    }

    /// Look up the value recorded under `name`.
    pub fn get(&self, name: &str) -> (r: Option<&Value>)
        ensures
            match r {
                Some(v) => self@.contains_key(name@) && v@ == self@[name@],
                None => !self@.contains_key(name@),
            },
    {
        let n: usize = self.entries.len();
        let mut i: usize = 0;
        while i < n
            invariant
                n == self.entries@.len(),
                i <= n,
                forall|j: int| 0 <= j < i ==> self.entries@[j].0@ != name@,
            decreases n - i,
        {
            let pair: &(String, Value) = &self.entries[i];
            if str_eq(pair.0.as_str(), name) {
                proof {
                    lemma_map_of_value(self.entries@, name@, i as int);
                }
                return Some(&self.entries[i].1);
            }
            i += 1;
        }
        proof {
            lemma_map_of_contains(self.entries@, name@);
        }
        None
    }
}

impl PropertyMap {
    /// The value recorded under `name`, else under `fallback_name`,
    /// else the supplied default.
    pub fn lookup(&self, name: &str, fallback_name: &str, default: &Value) -> (r: Value)
        ensures
            r@ == spec_lookup(self@, name@, fallback_name@, default@),
    {
        match self.get(name) {
            Some(v) => v.clone(),
            None => match self.get(fallback_name) {
                Some(v) => v.clone(),
                None => default.clone(),
            },
        }
    }
}

impl Clone for PropertyMap {
    fn clone(&self) -> (r: Self)
        ensures
            r@ == self@,
    {
        let n: usize = self.entries.len();
        let mut out: Vec<(String, Value)> = Vec::new();
        let mut i: usize = 0;
        while i < n
            invariant
                n == self.entries@.len(),
                i <= n,
                out@.len() == i,
                forall|j: int| 0 <= j < i ==> out@[j].0@ == self.entries@[j].0@,
                forall|j: int| 0 <= j < i ==> out@[j].1@ == self.entries@[j].1@,
            decreases n - i,
        {
            let pair: &(String, Value) = &self.entries[i];
            out.push((pair.0.clone(), pair.1.clone()));
            i += 1;
        }
        let r = PropertyMap { entries: out };
        proof {
            lemma_map_of_congruent(r.entries@, self.entries@);
        }
        r
    }
}

/// Entry lists equal key-for-key and value-for-value denote equal maps.
proof fn lemma_map_of_congruent(a: Seq<(String, Value)>, b: Seq<(String, Value)>)
    requires
        a.len() == b.len(),
        forall|j: int| 0 <= j < a.len() ==> a[j].0@ == b[j].0@,
        forall|j: int| 0 <= j < a.len() ==> a[j].1@ == b[j].1@,
    ensures
        map_of(a) == map_of(b),
    decreases a.len(),
{
    if a.len() > 0 {
        assert(forall|j: int|
            0 <= j < a.drop_first().len() ==> a.drop_first()[j] == a[j + 1]
                && b.drop_first()[j] == b[j + 1]);
        lemma_map_of_congruent(a.drop_first(), b.drop_first());
    }
}

// ---------------------------------------------------------------------
// Selector matching.
// ---------------------------------------------------------------------

/// The index of the first space in a character sequence, or its
/// length if it has none.
pub open spec fn first_space(s: Seq<char>) -> nat
    decreases s.len(),
{
    if s.len() == 0 {
        0
    } else if s[0] == ' ' {
        0
    } else {
        1 + first_space(s.drop_first())
    }
}

/// Split a character sequence at single spaces, keeping empty pieces,
/// as the class attribute is split.
pub open spec fn split_spaces(s: Seq<char>) -> Seq<Seq<char>>
    decreases s.len(),
{
    let i = first_space(s);
    if i >= s.len() {
        seq![s]
    } else {
        seq![s.take(i as int)] + split_spaces(s.skip(i as int + 1))
    }
}

/// `first_space` is exactly the first position holding a space.
proof fn lemma_first_space(s: Seq<char>, k: int)
    requires
        0 <= k <= s.len(),
        forall|j: int| 0 <= j < k ==> s[j] != ' ',
        k < s.len() ==> s[k] == ' ',
    ensures
        first_space(s) == k,
    decreases s.len(),
{
    if s.len() > 0 && k > 0 {
        assert(forall|j: int| 0 <= j < k - 1 ==> s.drop_first()[j] == s[j + 1]);
        if k - 1 < s.drop_first().len() {
            assert(s.drop_first()[k - 1] == s[k]);
        }
        lemma_first_space(s.drop_first(), k - 1);
    }
}

/// The class set an element carries: its `class` attribute split at
/// spaces, or nothing when the attribute is absent.
pub open spec fn spec_classes(attrs: Map<Seq<char>, Seq<char>>) -> Seq<Seq<char>> {
    if attrs.contains_key("class"@) {
        split_spaces(attrs["class"@])
    } else {
        Seq::empty()
    }
}

/// Whether an element satisfies every component of a simple selector.
pub open spec fn spec_matches_simple(e: ElementDataView, s: SimpleSelectorView) -> bool {
    &&& (s.tag_name matches Some(t) ==> t == e.tag_name)
    &&& (s.id matches Some(i) ==> e.attrs.contains_key("id"@) && e.attrs["id"@] == i)
    &&& forall|k: int| 0 <= k < s.class.len() ==> spec_classes(e.attrs).contains(#[trigger] s.class[k])
}

/// Whether an element satisfies a selector.
pub open spec fn spec_matches(e: ElementDataView, s: SelectorView) -> bool {
    match s {
        SelectorView::Simple(simple) => spec_matches_simple(e, simple),
    }
}

impl ElementData {
    /// The element's `id` attribute, if any.
    pub fn id(&self) -> (r: Option<&String>)
        ensures
            match r {
                Some(v) => self@.attrs.contains_key("id"@) && v@ == self@.attrs["id"@],
                None => !self@.attrs.contains_key("id"@),
            },
    {
        self.attrs.get("id")
    }

    /// The element's classes: its `class` attribute split at spaces.
    pub fn classes(&self) -> (r: Vec<String>)
        ensures
            r.deep_view() == spec_classes(self@.attrs),
    {
        let classlist = match self.attrs.get("class") {
            Some(c) => c,
            None => {
                let empty: Vec<String> = Vec::new();
                proof {
                    assert(empty.deep_view() =~= spec_classes(self@.attrs));
                }
                return empty;
            },
        };
        let s = classlist.as_str();
        let ghost full = classlist@;
        let n: usize = s.unicode_len();
        let mut out: Vec<String> = Vec::new();
        let mut start: usize = 0;
        let mut i: usize = 0;
        proof {
            assert(full.skip(0) =~= full);
            assert(out.deep_view() =~= Seq::<Seq<char>>::empty());
        }
        while i < n
            invariant
                s@ == full,
                n == full.len(),
                start <= i <= n,
                forall|j: int| start <= j < i ==> full[j] != ' ',
                split_spaces(full) =~= out.deep_view() + split_spaces(full.skip(start as int)),
            decreases n - i,
        {
            let ghost pre = out.deep_view();
            if s.get_char(i) == ' ' {
                let piece = String::from_str(s.substring_char(start, i));
                out.push(piece);
                proof {
                    let tail = full.skip(start as int);
                    assert(forall|j: int|
                        0 <= j < tail.len() ==> tail[j] == full[start + j]);
                    lemma_first_space(tail, i - start);
                    assert(tail.take(i - start) =~= full.subrange(start as int, i as int));
                    assert(tail.skip(i - start + 1) =~= full.skip(i + 1));
                    assert(split_spaces(tail) == seq![full.subrange(start as int, i as int)]
                        + split_spaces(full.skip(i + 1)));
                    assert(out.deep_view() =~= pre.push(full.subrange(start as int, i as int)));
                    assert(split_spaces(full) =~= out.deep_view() + split_spaces(
                        full.skip(i + 1),
                    ));
                }
                start = i + 1;
            }
            i += 1;
        }
        let piece = String::from_str(s.substring_char(start, n));
        let ghost pre = out.deep_view();
        out.push(piece);
        proof {
            let tail = full.skip(start as int);
            assert(forall|j: int| 0 <= j < tail.len() ==> tail[j] == full[start + j]);
            lemma_first_space(tail, n - start);
            assert(split_spaces(tail) == seq![tail]);
            assert(tail =~= full.subrange(start as int, n as int));
            assert(out.deep_view() =~= pre.push(tail));
            assert(out.deep_view() =~= spec_classes(self@.attrs));
        }
        out
    }
}

/// Whether the element carries the given class.
fn has_class(elem: &ElementData, class: &String) -> (r: bool)
    ensures
        r == spec_classes(elem@.attrs).contains(class@),
{
    let cs = elem.classes();
    let n = cs.len();
    let mut i: usize = 0;
    proof {
        assert(cs.deep_view().len() == cs@.len());
    }
    while i < n
        invariant
            n == cs@.len(),
            cs.deep_view() == spec_classes(elem@.attrs),
            cs.deep_view().len() == n,
            i <= n,
            forall|j: int| 0 <= j < i ==> cs.deep_view()[j] != class@,
        decreases n - i,
    {
        proof {
            assert(cs.deep_view()[i as int] == cs@[i as int]@);
        }
        if str_eq(cs[i].as_str(), class.as_str()) {
            return true;
        }
        i += 1;
    }
    proof {
        assert forall|j: int|
            0 <= j < spec_classes(elem@.attrs).len() implies spec_classes(elem@.attrs)[j]
            != class@ by {}
    }
    false
}

/// Whether the element satisfies every component of the simple
/// selector: its tag name, its id, and all its classes.
fn matches_simple_selector(elem: &ElementData, selector: &SimpleSelector) -> (r: bool)
    ensures
        r == spec_matches_simple(elem@, selector@),
{
    match &selector.tag_name {
        Some(name) => {
            if !str_eq(elem.tag_name.as_str(), name.as_str()) {
                return false;
            }
        },
        None => {
        },
    }
    match &selector.id {
        Some(idv) => {
            match elem.id() {
                Some(actual) => {
                    if !str_eq(actual.as_str(), idv.as_str()) {
                        return false;
                    }
                },
                None => {
                    return false;
                },
            }
        },
        None => {
        },
    }
    let n = selector.class.len();
    let mut i: usize = 0;
    while i < n
        invariant
            n == selector.class@.len(),
            i <= n,
            forall|k: int|
                0 <= k < i ==> spec_classes(elem@.attrs).contains(#[trigger] selector@.class[k]),
        decreases n - i,
    {
        proof {
            assert(selector@.class[i as int] == selector.class@[i as int]@);
        }
        if !has_class(elem, &selector.class[i]) {
            return false;
        }
        i += 1;
    }
    true
}

/// Whether the element satisfies the selector.
fn matches(elem: &ElementData, selector: &Selector) -> (r: bool)
    ensures
        r == spec_matches(elem@, selector@),
{
    let Selector::Simple(s) = selector;
    matches_simple_selector(elem, s)
}

// ---------------------------------------------------------------------
// The cascade.
// ---------------------------------------------------------------------

/// The first selector of the list the element satisfies, if any.
pub open spec fn first_matching(e: ElementDataView, sels: Seq<SelectorView>) -> Option<
    SelectorView,
>
    decreases sels.len(),
{
    if sels.len() == 0 {
        None
    } else if spec_matches(e, sels[0]) {
        Some(sels[0])
    } else {
        first_matching(e, sels.drop_first())
    }
}

/// The rules of the list that match the element, each with the
/// specificity of its first matching selector and its position.
pub open spec fn spec_matching_rules(e: ElementDataView, rules: Seq<RuleView>) -> Seq<
    ((int, int, int), int),
>
    decreases rules.len(),
{
    if rules.len() == 0 {
        Seq::empty()
    } else {
        let prev = spec_matching_rules(e, rules.drop_last());
        match first_matching(e, rules.last().selectors) {
            Some(sel) => prev.push((sel.spec_specificity(), rules.len() - 1)),
            None => prev,
        }
    }
}

/// Specificity order: id count first, then class count, then tag
/// count.
pub open spec fn spec_le(a: (int, int, int), b: (int, int, int)) -> bool {
    if a.0 != b.0 {
        a.0 < b.0
    } else if a.1 != b.1 {
        a.1 < b.1
    } else {
        a.2 <= b.2
    }
}

/// Insert a matched rule into an ascending run, behind every entry
/// whose specificity does not exceed it — so rules of equal
/// specificity keep their source order.
pub open spec fn insert_sorted(s: Seq<((int, int, int), int)>, x: ((int, int, int), int)) -> Seq<
    ((int, int, int), int),
>
    decreases s.len(),
{
    if s.len() == 0 {
        seq![x]
    } else if spec_le(s.last().0, x.0) {
        s.push(x)
    } else {
        insert_sorted(s.drop_last(), x).push(s.last())
    }
}

/// Stable insertion sort of matched rules by ascending specificity.
pub open spec fn spec_sort(s: Seq<((int, int, int), int)>) -> Seq<((int, int, int), int)>
    decreases s.len(),
{
    if s.len() == 0 {
        Seq::empty()
    } else {
        insert_sorted(spec_sort(s.drop_last()), s.last())
    }
}

/// Record a rule's declarations in order: the last declaration of a
/// property wins.
pub open spec fn apply_decls(
    m: Map<Seq<char>, ValueView>,
    decls: Seq<crate::css::DeclarationView>,
) -> Map<Seq<char>, ValueView>
    decreases decls.len(),
{
    if decls.len() == 0 {
        m
    } else {
        apply_decls(m, decls.drop_last()).insert(decls.last().name, decls.last().value)
    }
}

/// Apply the sorted matched rules from lowest to highest specificity.
pub open spec fn apply_rules(
    m: Map<Seq<char>, ValueView>,
    sorted: Seq<((int, int, int), int)>,
    rules: Seq<RuleView>,
) -> Map<Seq<char>, ValueView>
    decreases sorted.len(),
{
    if sorted.len() == 0 {
        m
    } else {
        let prev = apply_rules(m, sorted.drop_last(), rules);
        let idx = sorted.last().1;
        if 0 <= idx < rules.len() {
            apply_decls(prev, rules[idx].declarations)
        } else {
            prev
        }
    }
}

/// The specified value of every property of an element: every
/// matching rule's declarations, applied from lowest to highest
/// specificity, rules of equal specificity in source order.
pub open spec fn spec_specified_values(e: ElementDataView, sheet: StylesheetView) -> Map<
    Seq<char>,
    ValueView,
> {
    apply_rules(
        Map::empty(),
        spec_sort(spec_matching_rules(e, sheet.rules)),
        sheet.rules,
    )
}

/// If `rule` matches `elem`, return the specificity of its first
/// matching selector.
fn match_rule(elem: &ElementData, rule: &Rule) -> (r: Option<crate::css::Specificity>)
    ensures
        match r {
            Some(sp) => first_matching(elem@, rule@.selectors) matches Some(sel) && (
            sp.0 as int,
            sp.1 as int,
            sp.2 as int,
            ) == sel.spec_specificity(),
            None => first_matching(elem@, rule@.selectors) is None,
        },
{
    let n = rule.selectors.len();
    let mut i: usize = 0;
    proof {
        assert(rule@.selectors.skip(0) =~= rule@.selectors);
    }
    while i < n
        invariant
            n == rule.selectors@.len(),
            i <= n,
            first_matching(elem@, rule@.selectors) == first_matching(
                elem@,
                rule@.selectors.skip(i as int),
            ),
            forall|j: int| 0 <= j < i ==> !spec_matches(elem@, rule@.selectors[j]),
        decreases n - i,
    {
        let sel = &rule.selectors[i];
        proof {
            assert(sel@ == rule@.selectors[i as int]);
            assert(rule@.selectors.skip(i as int)[0] == rule@.selectors[i as int]);
        }
        if matches(elem, sel) {
            let sp = sel.specificity();
            return Some(sp);
        }
        proof {
            assert(rule@.selectors.skip(i as int).drop_first() =~= rule@.selectors.skip(
                i as int + 1,
            ));
        }
        i += 1;
    }
    proof {
        assert(rule@.selectors.skip(n as int).len() == 0);
    }
    None
}

/// Find all rules that match the element, with their specificities
/// and their positions in the stylesheet.
fn matching_rules(elem: &ElementData, stylesheet: &Stylesheet) -> (r: Vec<(
    crate::css::Specificity,
    usize,
)>)
    ensures
        Seq::new(r@.len(), |k: int| ((r@[k].0.0 as int, r@[k].0.1 as int, r@[k].0.2 as int), r@[k].1 as int))
            =~= spec_matching_rules(elem@, stylesheet@.rules),
{
    let n = stylesheet.rules.len();
    let mut out: Vec<(crate::css::Specificity, usize)> = Vec::new();
    let mut i: usize = 0;
    proof {
        assert(stylesheet@.rules.take(0) =~= Seq::<RuleView>::empty());
    }
    while i < n
        invariant
            n == stylesheet.rules@.len(),
            i <= n,
            Seq::new(out@.len(), |k: int| ((out@[k].0.0 as int, out@[k].0.1 as int, out@[k].0.2 as int), out@[k].1 as int))
                =~= spec_matching_rules(elem@, stylesheet@.rules.take(i as int)),
        decreases n - i,
    {
        let ghost pre = out@;
        proof {
            assert(stylesheet@.rules.take(i as int + 1).drop_last() =~= stylesheet@.rules.take(
                i as int,
            ));
            assert(stylesheet@.rules.take(i as int + 1).last() == stylesheet@.rules[i as int]);
            assert(stylesheet.rules@[i as int]@ == stylesheet@.rules[i as int]);
        }
        match match_rule(elem, &stylesheet.rules[i]) {
            Some(sp) => {
                out.push((sp, i));
                proof {
                    assert(out@.drop_last() =~= pre);
                }
            },
            None => {
            },
        }
        proof {
            assert(Seq::new(out@.len(), |k: int| ((out@[k].0.0 as int, out@[k].0.1 as int, out@[k].0.2 as int), out@[k].1 as int))
                =~= spec_matching_rules(elem@, stylesheet@.rules.take(i as int + 1)));
        }
        i += 1;
    }
    proof {
        assert(stylesheet@.rules.take(n as int) =~= stylesheet@.rules);
    }
    out
}

/// Whether `a`'s specificity does not exceed `b`'s.
fn spec_le_exec(a: &crate::css::Specificity, b: &crate::css::Specificity) -> (r: bool)
    ensures
        r == spec_le((a.0 as int, a.1 as int, a.2 as int), (b.0 as int, b.1 as int, b.2 as int)),
{
    if a.0 != b.0 {
        a.0 < b.0
    } else if a.1 != b.1 {
        a.1 < b.1
    } else {
        a.2 <= b.2
    }
}

/// The mathematical image of a matched-rule list.
pub open spec fn msview(s: Seq<(crate::css::Specificity, usize)>) -> Seq<((int, int, int), int)> {
    Seq::new(
        s.len(),
        |k: int| ((s[k].0.0 as int, s[k].0.1 as int, s[k].0.2 as int), s[k].1 as int),
    )
}

/// Inserting behind the trailing run of strictly larger keys is what
/// `insert_sorted` does.
proof fn lemma_insert_sorted_pos(
    s: Seq<((int, int, int), int)>,
    x: ((int, int, int), int),
    p: int,
)
    requires
        0 <= p <= s.len(),
        forall|k: int| p <= k < s.len() ==> !spec_le(#[trigger] s[k].0, x.0),
        p > 0 ==> spec_le(s[p - 1].0, x.0),
    ensures
        insert_sorted(s, x) =~= s.take(p).push(x) + s.skip(p),
    decreases s.len(),
{
    if p == s.len() {
        if s.len() == 0 {
            assert(insert_sorted(s, x) =~= s.take(p).push(x) + s.skip(p));
        } else {
            assert(spec_le(s.last().0, x.0));
            assert(insert_sorted(s, x) =~= s.take(p).push(x) + s.skip(p));
        }
    } else {
        assert(!spec_le(s[s.len() - 1].0, x.0));
        assert(forall|k: int|
            p <= k < s.drop_last().len() ==> s.drop_last()[k] == s[k]);
        if p > 0 {
            assert(s.drop_last()[p - 1] == s[p - 1]);
        }
        lemma_insert_sorted_pos(s.drop_last(), x, p);
        assert(insert_sorted(s, x) == insert_sorted(s.drop_last(), x).push(s.last()));
        assert(insert_sorted(s, x) =~= s.take(p).push(x) + s.skip(p));
    }
}

/// Apply styles to a single element, returning the specified values:
/// every matching rule's declarations, from lowest to highest
/// specificity, rules of equal specificity in source order.
#[verifier::loop_isolation(false)]
pub fn specified_values(elem: &ElementData, stylesheet: &Stylesheet) -> (r: PropertyMap)
    ensures
        r@ == spec_specified_values(elem@, stylesheet@),
{
    let rules = matching_rules(elem, stylesheet);
    let ghost matched = msview(rules@);
    proof {
        assert(matched =~= spec_matching_rules(elem@, stylesheet@.rules));
    }
    // Go through the rules from lowest to highest specificity: a
    // stable insertion sort.
    let mut sorted: Vec<(crate::css::Specificity, usize)> = Vec::new();
    let n = rules.len();
    let mut i: usize = 0;
    proof {
        assert(matched.take(0) =~= Seq::<((int, int, int), int)>::empty());
        assert(msview(sorted@) =~= spec_sort(matched.take(0)));
    }
    while i < n
        invariant
            i <= n,
            msview(sorted@) =~= spec_sort(matched.take(i as int)),
        decreases n - i,
    {
        let x = rules[i];
        let ghost pres = msview(sorted@);
        let mut j: usize = sorted.len();
        while j > 0 && !spec_le_exec(&sorted[j - 1].0, &x.0)
            invariant
                j <= sorted@.len(),
                forall|k: int|
                    j <= k < sorted@.len() ==> !spec_le(#[trigger] msview(sorted@)[k].0, (
                    x.0.0 as int,
                    x.0.1 as int,
                    x.0.2 as int,
                    )),
            decreases j,
        {
            j -= 1;
        }
        proof {
            lemma_insert_sorted_pos(
                msview(sorted@),
                ((x.0.0 as int, x.0.1 as int, x.0.2 as int), x.1 as int),
                j as int,
            );
        }
        sorted.insert(j, x);
        proof {
            assert(matched.take(i as int + 1).drop_last() =~= matched.take(i as int));
            assert(matched.take(i as int + 1).last() == matched[i as int]);
            assert(matched[i as int] == ((x.0.0 as int, x.0.1 as int, x.0.2 as int), x.1 as int));
            assert(msview(sorted@) =~= pres.take(j as int).push(
                ((x.0.0 as int, x.0.1 as int, x.0.2 as int), x.1 as int),
            ) + pres.skip(j as int));
            assert(msview(sorted@) =~= spec_sort(matched.take(i as int + 1)));
        }
        i += 1;
    }
    proof {
        assert(matched.take(n as int) =~= matched);
    }
    let ghost sortedv = msview(sorted@);
    let mut values = PropertyMap::new();
    let m = sorted.len();
    let mut k: usize = 0;
    proof {
        assert(sortedv.take(0) =~= Seq::<((int, int, int), int)>::empty());
    }
    while k < m
        invariant
            k <= m,
            m == sorted@.len(),
            sortedv == msview(sorted@),
            values@ == apply_rules(
                Map::<Seq<char>, ValueView>::empty(),
                sortedv.take(k as int),
                stylesheet@.rules,
            ),
        decreases m - k,
    {
        let ghost outer_prev = values@;
        proof {
            assert(sortedv.take(k as int + 1).drop_last() =~= sortedv.take(k as int));
            assert(sortedv.take(k as int + 1).last() == sortedv[k as int]);
        }
        let ri = sorted[k].1;
        if ri < stylesheet.rules.len() {
            let rule = &stylesheet.rules[ri];
            let dn = rule.declarations.len();
            let mut dj: usize = 0;
            proof {
                assert(rule@ == stylesheet@.rules[ri as int]);
                assert(rule@.declarations.take(0) =~= Seq::<crate::css::DeclarationView>::empty());
            }
            while dj < dn
                invariant
                    dj <= dn,
                    dn == rule.declarations@.len(),
                    values@ == apply_decls(outer_prev, rule@.declarations.take(dj as int)),
                decreases dn - dj,
            {
                let decl = &rule.declarations[dj];
                proof {
                    assert(rule@.declarations.take(dj as int + 1).drop_last()
                        =~= rule@.declarations.take(dj as int));
                    assert(rule@.declarations.take(dj as int + 1).last() == rule@.declarations[
                        dj as int
                    ]);
                    assert(decl@ == rule@.declarations[dj as int]);
                }
                values.insert(decl.name.clone(), decl.value.clone());
                dj += 1;
            }
            proof {
                assert(rule@.declarations.take(dn as int) =~= rule@.declarations);
            }
        }
        k += 1;
    }
    proof {
        assert(sortedv.take(m as int) =~= sortedv);
    }
    values
}

/// A document node with its resolved style: the specified value of each
/// property, and the styled children in document order.
#[derive(Debug)]
pub struct StyledNode {
    pub specified_values: PropertyMap,
    pub children: Vec<StyledNode>,
}

/// Mathematical image of a styled node.
pub ghost struct StyledNodeView {
    pub props: Map<Seq<char>, ValueView>,
    pub children: Seq<StyledNodeView>,
}

impl View for StyledNode {
    type V = StyledNodeView;

    open spec fn view(&self) -> StyledNodeView
        decreases self,
    {
        StyledNodeView { props: self.specified_values@, children: styled_views(self.children@) }
    }
}

/// The views of a sequence of styled nodes, in order.
pub open spec fn styled_views(s: Seq<StyledNode>) -> Seq<StyledNodeView>
    decreases s,
{
    if s.len() == 0 {
        Seq::empty()
    } else {
        styled_views(s.drop_last()).push(s.last()@)
    }
}

/// `styled_views` maps each node to its view, position by position.
pub broadcast proof fn lemma_styled_views(s: Seq<StyledNode>)
    ensures
        (#[trigger] styled_views(s)).len() == s.len(),
        forall|i: int| 0 <= i < s.len() ==> styled_views(s)[i] == s[i]@,
    decreases s,
{
    if s.len() > 0 {
        lemma_styled_views(s.drop_last());
        assert(styled_views(s) == styled_views(s.drop_last()).push(s.last()@));
        assert forall|i: int| 0 <= i < s.len() implies styled_views(s)[i] == s[i]@ by {
            if i < s.len() - 1 {
                assert(s.drop_last()[i] == s[i]);
            }
        }
    }
}

/// The value recorded under `name`, else under `fallback_name`, else
/// the supplied default.
pub open spec fn spec_lookup(
    props: Map<Seq<char>, ValueView>,
    name: Seq<char>,
    fallback_name: Seq<char>,
    default: ValueView,
) -> ValueView {
    if props.contains_key(name) {
        props[name]
    } else if props.contains_key(fallback_name) {
        props[fallback_name]
    } else {
        default
    }
}

/// The styled tree a document node and a stylesheet produce: each
/// element carries its cascaded property map, text nodes carry none,
/// and children keep their order.
pub open spec fn spec_style_tree(n: NodeView, sheet: StylesheetView) -> StyledNodeView
    decreases n, 1int,
{
    StyledNodeView {
        props: match n.node_type {
            NodeTypeView::Element(e) => spec_specified_values(e, sheet),
            NodeTypeView::Text(_) => Map::empty(),
        },
        children: spec_style_children(n.children, sheet),
    }
}

pub open spec fn spec_style_children(cs: Seq<NodeView>, sheet: StylesheetView) -> Seq<
    StyledNodeView,
>
    decreases cs, 0int,
{
    if cs.len() == 0 {
        Seq::empty()
    } else {
        spec_style_children(cs.drop_last(), sheet).push(spec_style_tree(cs.last(), sheet))
    }
}

/// Apply a stylesheet to an entire document tree, returning a styled
/// node tree.
#[verifier::loop_isolation(false)]
pub fn style_tree(root: &Node, stylesheet: &Stylesheet) -> (r: StyledNode)
    ensures
        r@ == spec_style_tree(root@, stylesheet@),
    decreases root@,
{
    let ghost n0 = root@;
    let props = match &root.node_type {
        NodeType::Element(e) => specified_values(e, stylesheet),
        NodeType::Text(_) => PropertyMap::new(),
    };
    let n = root.children.len();
    let mut out: Vec<StyledNode> = Vec::new();
    proof {
        crate::dom::lemma_node_views(root.children@);
        assert(n0.children == crate::dom::node_views(root.children@));
        assert(n0.children.take(0) =~= Seq::<NodeView>::empty());
        assert(styled_views(out@) =~= Seq::<StyledNodeView>::empty());
    }
    let mut i: usize = 0;
    while i < n
        invariant
            i <= n,
            n == root.children@.len(),
            styled_views(out@) == spec_style_children(n0.children.take(i as int), stylesheet@),
        decreases n - i,
    {
        let child = &root.children[i];
        proof {
            assert(child@ == n0.children[i as int]);
            assert(n0.children.take(i as int + 1).drop_last() =~= n0.children.take(i as int));
            assert(n0.children.take(i as int + 1).last() == n0.children[i as int]);
        }
        let ghost pre = out@;
        let sc = style_tree(child, stylesheet);
        out.push(sc);
        proof {
            assert(out@.drop_last() =~= pre);
            assert(styled_views(out@) == styled_views(pre).push(sc@));
        }
        i += 1;
    }
    proof {
        assert(n0.children.take(n as int) =~= n0.children);
    }
    let r = StyledNode { specified_values: props, children: out };
    proof {
        assert(r@ =~= spec_style_tree(n0, stylesheet@));
    }
    r
}

impl StyledNode {
    /// Return the specified value of a property if it exists, otherwise `None`.
    pub fn value(&self, name: &str) -> (r: Option<Value>)
        ensures
            match r {
                Some(v) => self@.props.contains_key(name@) && v@ == self@.props[name@],
                None => !self@.props.contains_key(name@),
            },
    {
        match self.specified_values.get(name) {
            Some(v) => Some(v.clone()),
            None => None,
        }
    }

    /// Return the specified value of property `name`, or property
    /// `fallback_name` if that doesn't exist, or value `default` if
    /// neither does.
    pub fn lookup(&self, name: &str, fallback_name: &str, default: &Value) -> (r: Value)
        ensures
            r@ == spec_lookup(self@.props, name@, fallback_name@, default@),
    {
        match self.value(name) {
            Some(v) => v,
            None => match self.value(fallback_name) {
                Some(v) => v,
                None => default.clone(),
            },
        }
    }
}

} // verus!
