//! The UDF template as a tree of styled elements: named styles resolved with
//! their inheritance, inheritable attributes passed down, and text taken by
//! character offset from the shared content pool.
use vstd::prelude::*;

use crate::attrs::{lemma_map_of_dom, lemma_map_of_finite, lemma_map_of_last, map_of, Attrs};
use crate::text::{append_chars, owned, str_eq, string_of};
use crate::decimal::{parse_usize, usize_from_str};
use crate::xml::{parse_xml, xml_nodes};
use vstd::utf8::encode_utf8;
use vstd::string::StringSliceAdditionalSpecFns;
use vstd::string::StringExecFns;
use crate::xml::{XmlAttributeView, XmlNode, XmlNodeView};

verus! {

/// An element of the template with its resolved attributes, its own text,
/// and its child elements.
#[derive(Debug)]
pub struct Element {
    pub tag: String,
    pub attrs: Attrs,
    pub text: String,
    pub children: Vec<Element>,
}

pub struct ElementModel {
    pub tag: Seq<char>,
    pub attrs: Map<Seq<char>, Seq<char>>,
    pub text: Seq<char>,
    pub children: Seq<ElementModel>,
}

pub open spec fn model_of(e: Element) -> ElementModel
    decreases e,
{
    ElementModel {
        tag: e.tag@,
        attrs: e.attrs@,
        text: e.text@,
        children: Seq::new(
            e.children@.len(),
            |i: int|
                if 0 <= i < e.children@.len() {
                    model_of(e.children@[i])
                } else {
                    ElementModel {
                        tag: Seq::empty(),
                        attrs: Map::empty(),
                        text: Seq::empty(),
                        children: Seq::empty(),
                    }
                },
        ),
    }
}

impl DeepView for Element {
    type V = ElementModel;

    open spec fn deep_view(&self) -> ElementModel {
        model_of(*self)
    }
}

impl Element {
    /// A copy of the element and its descendants.
    pub fn duplicate(&self) -> (copy: Element)
        ensures
            model_of(copy) == model_of(*self),
        decreases self,
    {
        let mut children: Vec<Element> = Vec::new();
        let mut i: usize = 0;
        while i < self.children.len()
            invariant
                i <= self.children@.len(),
                children@.len() == i,
                forall|k: int| 0 <= k < i ==> #[trigger] model_of(children@[k]) == model_of(self.children@[k]),
            decreases self.children@.len() - i,
        {
            let c = self.children[i].duplicate();
            children.push(c);
            i += 1;
        }
        let ghost kids = children@;
        let copy = Element {
            tag: self.tag.clone(),
            attrs: self.attrs.cloned(),
            text: self.text.clone(),
            children,
        };
        assert forall|k: int| 0 <= k < copy.children@.len() implies model_of(copy).children[k] == model_of(*self).children[k] by {
            assert(copy.children@[k] == kids[k]);
            assert(model_of(kids[k]) == model_of(self.children@[k]));
            assert(model_of(copy).children[k] == model_of(copy.children@[k]));
            assert(model_of(*self).children[k] == model_of(self.children@[k]));
        }
        assert(model_of(copy).children =~= model_of(*self).children);
        copy
    }

    /// The attribute's value, or the empty string where it is not set.
    pub fn get(&self, key: &str) -> (value: &str)
        ensures
            value@ == (if self.attrs@.contains_key(key@) {
                self.attrs@[key@]
            } else {
                Seq::<char>::empty()
            }),
    {
        match self.attrs.get(key) {
            Some(v) => v.as_str(),
            None => {
                proof {
                    reveal_strlit("");
                }
                ""
            },
        }
    }
}

impl Clone for Element {
    fn clone(&self) -> (copy: Self)
        ensures
            model_of(copy) == model_of(*self),
    {
        self.duplicate()
    }
}

/// The value of the first attribute with this name and no namespace, as
/// `roxmltree::Node::attribute` finds it.
pub open spec fn first_attribute(attributes: Seq<XmlAttributeView>, key: Seq<char>) -> Option<Seq<char>>
    decreases attributes.len(),
{
    if attributes.len() == 0 {
        None
    } else if !attributes[0].namespaced && attributes[0].name == key {
        Some(attributes[0].value)
    } else {
        first_attribute(attributes.drop_first(), key)
    }
}

/// Every attribute by its local name, a later one replacing an earlier one.
pub open spec fn node_attrs(node: XmlNodeView) -> Map<Seq<char>, Seq<char>> {
    map_of(node.attributes.map_values(|a: XmlAttributeView| (a.name, a.value)))
}

/// Node positions `0..n`.
pub open spec fn positions(n: nat) -> Seq<usize> {
    Seq::new(n, |j: int| j as usize)
}

/// Whether the node at `j` is an element whose parent is at `p`.
pub open spec fn element_child_of(nodes: Seq<XmlNodeView>, p: usize) -> spec_fn(usize) -> bool {
    |j: usize| j < nodes.len() && nodes[j as int].element && nodes[j as int].parent == Some(p)
}

/// The positions of the element children of the node at `p`, in order.
pub open spec fn element_children(nodes: Seq<XmlNodeView>, p: usize) -> Seq<usize> {
    positions(nodes.len()).filter(element_child_of(nodes, p))
}

/// Whether the node at `j` is a child of the node at `p`.
pub open spec fn child_of(nodes: Seq<XmlNodeView>, p: usize) -> spec_fn(usize) -> bool {
    |j: usize| j < nodes.len() && nodes[j as int].parent == Some(p)
}

/// The positions of all children of the node at `p`, in order.
pub open spec fn all_children(nodes: Seq<XmlNodeView>, p: usize) -> Seq<usize> {
    positions(nodes.len()).filter(child_of(nodes, p))
}

/// Whether the node at `j` has this tag name.
pub open spec fn has_name(nodes: Seq<XmlNodeView>, name: Seq<char>) -> spec_fn(usize) -> bool {
    |j: usize| nodes[j as int].name == name
}

/// The first child element of the node at `p` with this tag name.
pub open spec fn find_child(nodes: Seq<XmlNodeView>, p: usize, name: Seq<char>) -> Option<usize> {
    let found = element_children(nodes, p).filter(has_name(nodes, name));
    if found.len() == 0 {
        None
    } else {
        Some(found[0])
    }
}

/// The texts of the given nodes, joined.
pub open spec fn texts_of(nodes: Seq<XmlNodeView>, ps: Seq<usize>) -> Seq<char>
    decreases ps.len(),
{
    if ps.len() == 0 {
        Seq::empty()
    } else {
        texts_of(nodes, ps.drop_last()) + match nodes[ps.last() as int].text {
            Some(t) => t,
            None => Seq::empty(),
        }
    }
}

/// The value of the first attribute named `key` without a namespace.
pub fn attribute<'a>(node: &'a XmlNode, key: &str) -> (value: Option<&'a String>)
    ensures
        match value {
            Some(v) => first_attribute(node.deep_view().attributes, key@) == Some(v@),
            None => first_attribute(node.deep_view().attributes, key@) is None,
        },
{
    let ghost all = node.deep_view().attributes;
    let mut i: usize = 0;
    assert(all.skip(0) =~= all);
    while i < node.attributes.len()
        invariant
            i <= node.attributes@.len(),
            all == node.deep_view().attributes,
            first_attribute(all, key@) == first_attribute(all.skip(i as int), key@),
        decreases node.attributes@.len() - i,
    {
        let a = &node.attributes[i];
        assert(all[i as int] == a.deep_view());
        assert(all.skip(i as int)[0] == all[i as int]);
        assert(all.skip(i as int).drop_first() =~= all.skip(i + 1));
        if !a.namespaced && crate::text::str_eq(a.name.as_str(), key) {
            return Some(&a.value);
        }
        i += 1;
    }
    None
}

/// Every attribute of the node by its local name; a later one replaces an
/// earlier one with the same name.
pub fn attrs_of(node: &XmlNode) -> (attrs: Attrs)
    ensures
        attrs@ == node_attrs(node.deep_view()),
{
    let ghost pairs = node.deep_view().attributes.map_values(|a: XmlAttributeView| (a.name, a.value));
    let mut attrs = Attrs::new();
    let mut i: usize = 0;
    while i < node.attributes.len()
        invariant
            i <= node.attributes@.len(),
            pairs == node.deep_view().attributes.map_values(|a: XmlAttributeView| (a.name, a.value)),
            attrs@ == map_of(pairs.take(i as int)),
        decreases node.attributes@.len() - i,
    {
        let a = &node.attributes[i];
        assert(pairs[i as int] == (a.name@, a.value@));
        attrs.insert(a.name.clone(), a.value.clone());
        assert(pairs.take(i + 1).drop_last() =~= pairs.take(i as int));
        i += 1;
    }
    assert(pairs.take(node.attributes@.len() as int) =~= pairs);
    attrs
}

/// For every node, the positions of its element children.
pub fn element_child_lists(nodes: &Vec<XmlNode>) -> (lists: Vec<Vec<usize>>)
    ensures
        lists@.len() == nodes@.len(),
        forall|p: int| 0 <= p < nodes@.len() ==> #[trigger] lists@[p]@ == element_children(nodes.deep_view(), p as usize),
{
    let ghost all = nodes.deep_view();
    let n = nodes.len();
    let mut lists: Vec<Vec<usize>> = Vec::new();
    let mut p: usize = 0;
    while p < n
        invariant
            n == nodes@.len(),
            p <= n,
            lists@.len() == p,
            forall|q: int| 0 <= q < p ==> #[trigger] lists@[q]@ == Seq::<usize>::empty(),
        decreases n - p,
    {
        lists.push(Vec::new());
        p += 1;
    }
    let mut j: usize = 0;
    while j < n
        invariant
            n == nodes@.len(),
            all == nodes.deep_view(),
            j <= n,
            lists@.len() == n,
            forall|q: int| 0 <= q < n ==> #[trigger] lists@[q]@ == positions(j as nat).filter(element_child_of(all, q as usize)),
        decreases n - j,
    {
        let node = &nodes[j];
        assert(all[j as int] == node.deep_view());
        proof {
            assert(positions((j + 1) as nat) =~= positions(j as nat).push(j));
            assert forall|q: int| 0 <= q < n implies #[trigger] positions((j + 1) as nat).filter(element_child_of(all, q as usize))
                == if j < all.len() && all[j as int].element && all[j as int].parent == Some(q as usize) {
                positions(j as nat).filter(element_child_of(all, q as usize)).push(j)
            } else {
                positions(j as nat).filter(element_child_of(all, q as usize))
            } by {
                positions(j as nat).lemma_filter_push(j, element_child_of(all, q as usize));
            }
        }
        if node.element {
            match node.parent {
                Some(q) => {
                    if q < n {
                        lists[q].push(j);
                    }
                },
                None => {},
            }
        }
        j += 1;
    }
    assert forall|p: int| 0 <= p < nodes@.len() implies #[trigger] lists@[p]@ == element_children(nodes.deep_view(), p as usize) by {
        assert(positions(n as nat) == positions(nodes.deep_view().len()));
    }
    lists
}

/// The first of the listed element children with this tag name.
pub fn find_child_in(nodes: &Vec<XmlNode>, kids: &Vec<usize>, name: &str) -> (found: Option<usize>)
    requires
        forall|k: int| 0 <= k < kids@.len() ==> #[trigger] kids@[k] < nodes@.len(),
    ensures
        ({
            let f = kids@.filter(has_name(nodes.deep_view(), name@));
            match found {
                Some(c) => f.len() > 0 && f[0] == c && c < nodes@.len(),
                None => f.len() == 0,
            }
        }),
{
    let ghost all = nodes.deep_view();
    let ghost pred = has_name(all, name@);
    let mut k: usize = 0;
    while k < kids.len()
        invariant
            k <= kids@.len(),
            all == nodes.deep_view(),
            pred == has_name(all, name@),
            forall|m: int| 0 <= m < kids@.len() ==> #[trigger] kids@[m] < nodes@.len(),
            kids@.take(k as int).filter(pred).len() == 0,
        decreases kids@.len() - k,
    {
        proof {
            assert(kids@.take(k + 1) =~= kids@.take(k as int).push(kids@[k as int]));
            kids@.take(k as int).lemma_filter_push(kids@[k as int], pred);
        }
        let c = kids[k];
        assert(all[c as int] == nodes@[c as int].deep_view());
        if crate::text::str_eq(nodes[c].name.as_str(), name) {
            proof {
                let rest = kids@.skip(k + 1);
                assert(kids@ =~= kids@.take(k + 1) + rest);
                Seq::filter_distributes_over_add(kids@.take(k + 1), rest, pred);
            }
            return Some(c);
        }
        k += 1;
    }
    assert(kids@.take(kids@.len() as int) =~= kids@);
    None
}


pub const CYCLIC: &'static str = "Cyclic UDF style reference.";
pub const NESTING: &'static str = "UDF nesting exceeds 100 levels.";
pub const BAD_OFFSET: &'static str = "Invalid UDF text offset.";
pub const BAD_LENGTH: &'static str = "Invalid UDF text length.";
pub const BAD_RANGE: &'static str = "Invalid UDF text range.";
pub const OUT_OF_RANGE: &'static str = "UDF text range exceeds content.";
pub const RESOLVER: &'static str = "resolver";

/// The attributes that an element passes on to its children.
pub const INHERITED: [&'static str; 18] = [
    "family",
    "size",
    "bold",
    "italic",
    "underline",
    "strikeThrough",
    "foreground",
    "background",
    "superscript",
    "subscript",
    "Alignment",
    "SpaceAbove",
    "SpaceBelow",
    "LeftIndent",
    "RightIndent",
    "FirstLineIndent",
    "LineSpacing",
    "TabSet",
];

pub open spec fn inherited_keys() -> Set<Seq<char>> {
    Set::new(|k: Seq<char>| exists|i: int| 0 <= i < 18 && (#[trigger] INHERITED@[i])@ == k)
}

/// The attributes of a named style with those of the styles it resolves
/// from, nearer ones taking precedence; a style that resolves from itself,
/// directly or not, is an error. `seen` holds the names already followed.
pub open spec fn spec_named(
    name: Seq<char>,
    styles: Map<Seq<char>, Map<Seq<char>, Seq<char>>>,
    seen: Seq<Seq<char>>,
) -> Result<Map<Seq<char>, Seq<char>>, Seq<char>>
    decreases styles.dom().difference(seen.to_set()).len(),
    when styles.dom().finite()
{
    if seen.contains(name) {
        Err(CYCLIC@)
    } else if !styles.contains_key(name) {
        Ok(Map::empty())
    } else {
        let style = styles[name];
        if style.contains_key(RESOLVER@) {
            proof {
                lemma_named_decreases(styles.dom(), seen, name);
            }
            match spec_named(style[RESOLVER@], styles, seen.push(name)) {
                Ok(base) => Ok(base.union_prefer_right(style)),
                Err(e) => Err(e),
            }
        } else {
            Ok(style)
        }
    }
}

/// The names followed while resolving a style, after those already
/// `seen`: every name reached that is not a repeat, in order, whether or not
/// a style of that name exists.
pub open spec fn spec_named_seen(
    name: Seq<char>,
    styles: Map<Seq<char>, Map<Seq<char>, Seq<char>>>,
    seen: Seq<Seq<char>>,
) -> Seq<Seq<char>>
    decreases styles.dom().difference(seen.to_set()).len(),
    when styles.dom().finite()
{
    if seen.contains(name) {
        seen
    } else if !styles.contains_key(name) {
        seen.push(name)
    } else if styles[name].contains_key(RESOLVER@) {
        proof {
            lemma_named_decreases(styles.dom(), seen, name);
        }
        spec_named_seen(styles[name][RESOLVER@], styles, seen.push(name))
    } else {
        seen.push(name)
    }
}

pub proof fn lemma_named_decreases(names: Set<Seq<char>>, seen: Seq<Seq<char>>, name: Seq<char>)
    requires
        names.finite(),
        names.contains(name),
        !seen.contains(name),
    ensures
        names.difference(seen.push(name).to_set()).len() < names.difference(seen.to_set()).len(),
{
    seen.lemma_push_to_set_commute(name);
    let before = names.difference(seen.to_set());
    assert(names.difference(seen.push(name).to_set()) =~= before.remove(name));
    assert(before.contains(name));
}

/// Resolving a style fails only on a cycle.
pub proof fn lemma_named_fails_only_on_cycles(
    name: Seq<char>,
    styles: Map<Seq<char>, Map<Seq<char>, Seq<char>>>,
    seen: Seq<Seq<char>>,
)
    requires
        styles.dom().finite(),
    ensures
        spec_named(name, styles, seen) is Err ==> spec_named(name, styles, seen) == Err::<Map<Seq<char>, Seq<char>>, Seq<char>>(CYCLIC@),
    decreases styles.dom().difference(seen.to_set()).len(),
{
    if !seen.contains(name) && styles.contains_key(name) && styles[name].contains_key(RESOLVER@) {
        lemma_named_decreases(styles.dom(), seen, name);
        lemma_named_fails_only_on_cycles(styles[name][RESOLVER@], styles, seen.push(name));
    }
}

/// A resolved style keeps its own attributes over those of the styles it
/// resolves from.
pub proof fn lemma_named_keeps_own(
    name: Seq<char>,
    styles: Map<Seq<char>, Map<Seq<char>, Seq<char>>>,
    seen: Seq<Seq<char>>,
)
    requires
        styles.dom().finite(),
        spec_named(name, styles, seen) is Ok,
        styles.contains_key(name),
    ensures
        styles[name].submap_of(spec_named(name, styles, seen)->Ok_0),
{
}

/// Styles that resolve from one another in a ring are refused as cyclic:
/// here each `names[j]` resolves from the next, and the last from the first.
pub proof fn lemma_ring_is_cyclic(styles: Map<Seq<char>, Map<Seq<char>, Seq<char>>>, names: Seq<Seq<char>>)
    requires
        styles.dom().finite(),
        names.len() > 0,
        names.no_duplicates(),
        forall|j: int| 0 <= j < names.len() ==> #[trigger] styles.contains_key(names[j])
            && styles[names[j]].contains_key(RESOLVER@)
            && styles[names[j]][RESOLVER@] == names[(j + 1) % names.len() as int],
    ensures
        spec_named(names[0], styles, Seq::empty()) == Err::<Map<Seq<char>, Seq<char>>, Seq<char>>(CYCLIC@),
{
    lemma_ring_from(styles, names, 0);
    assert(names.take(0) =~= Seq::<Seq<char>>::empty());
}

/// Following the ring from `names[k]` with the first `k` names seen fails.
proof fn lemma_ring_from(styles: Map<Seq<char>, Map<Seq<char>, Seq<char>>>, names: Seq<Seq<char>>, k: int)
    requires
        styles.dom().finite(),
        names.len() > 0,
        names.no_duplicates(),
        forall|j: int| 0 <= j < names.len() ==> #[trigger] styles.contains_key(names[j])
            && styles[names[j]].contains_key(RESOLVER@)
            && styles[names[j]][RESOLVER@] == names[(j + 1) % names.len() as int],
        0 <= k <= names.len(),
    ensures
        spec_named(names[k % names.len() as int], styles, names.take(k)) == Err::<Map<Seq<char>, Seq<char>>, Seq<char>>(CYCLIC@),
    decreases names.len() - k,
{
    let n = names.len() as int;
    if k == n {
        assert(names.take(k) =~= names);
        assert(k % n == 0) by (nonlinear_arith) requires k == n, n > 0;
        assert(names.take(k)[0] == names[0]);
    } else {
        assert(k % n == k) by (nonlinear_arith) requires 0 <= k < n;
        lemma_ring_from(styles, names, k + 1);
        let name = names[k];
        assert(!names.take(k).contains(name)) by {
            if names.take(k).contains(name) {
                let j = choose|j: int| 0 <= j < k && names.take(k)[j] == name;
                assert(names[j] == names[k]);
            }
        }
        assert(names.take(k).push(name) =~= names.take(k + 1));
        assert(styles.contains_key(names[k]));
        lemma_named_decreases(styles.dom(), names.take(k), name);
    }
}

/// The style of the given name, as a map from names keeps the last one.
fn lookup_style<'a>(styles: &'a Vec<(String, Attrs)>, name: &str) -> (found: Option<&'a Attrs>)
    ensures
        match found {
            Some(a) => map_of(styles.deep_view()).contains_key(name@) && map_of(styles.deep_view())[name@] == a@,
            None => !map_of(styles.deep_view()).contains_key(name@),
        },
{
    let ghost pairs = styles.deep_view();
    let mut i = styles.len();
    while i > 0
        invariant
            i <= styles@.len(),
            pairs == styles.deep_view(),
            forall|j: int| i <= j < styles@.len() ==> #[trigger] pairs[j].0 != name@,
        decreases i,
    {
        let k = i - 1;
        assert(pairs[k as int] == (styles@[k as int].0@, styles@[k as int].1@));
        if str_eq(styles[k].0.as_str(), name) {
            proof {
                lemma_map_of_last(pairs, k as int);
            }
            return Some(&styles[k].1);
        }
        i = k;
    }
    proof {
        lemma_map_of_dom(pairs, name@);
    }
    None
}

fn seen_contains(seen: &Vec<String>, name: &str) -> (found: bool)
    ensures
        found == seen.deep_view().contains(name@),
{
    let mut i: usize = 0;
    while i < seen.len()
        invariant
            i <= seen@.len(),
            forall|j: int| 0 <= j < i ==> #[trigger] seen.deep_view()[j] != name@,
        decreases seen@.len() - i,
    {
        assert(seen.deep_view()[i as int] == seen@[i as int]@);
        if str_eq(seen[i].as_str(), name) {
            return true;
        }
        i += 1;
    }
    false
}

/// Resolves a named style with the styles it resolves from; `seen` holds
/// the names already followed and gains those followed now.
pub fn named(name: &str, styles: &Vec<(String, Attrs)>, seen: &mut Vec<String>) -> (result: Result<Attrs, String>)
    ensures
        match result {
            Ok(a) => spec_named(name@, map_of(styles.deep_view()), old(seen).deep_view()) == Ok::<Map<Seq<char>, Seq<char>>, Seq<char>>(a@),
            Err(e) => spec_named(name@, map_of(styles.deep_view()), old(seen).deep_view()) == Err::<Map<Seq<char>, Seq<char>>, Seq<char>>(e@),
        },
        final(seen).deep_view() == spec_named_seen(name@, map_of(styles.deep_view()), old(seen).deep_view()),
    decreases map_of(styles.deep_view()).dom().difference(old(seen).deep_view().to_set()).len(),
{
    proof {
        lemma_map_of_finite(styles.deep_view());
    }
    let ghost map = map_of(styles.deep_view());
    let ghost before = seen.deep_view();
    if seen_contains(seen, name) {
        return Err(owned(CYCLIC));
    }
    seen.push(owned(name));
    assert(seen.deep_view() =~= before.push(name@));
    let style = match lookup_style(styles, name) {
        None => { return Ok(Attrs::new()); },
        Some(style) => style,
    };
    let mut result = match style.get(RESOLVER) {
        Some(parent) => {
            proof {
                lemma_named_decreases(map.dom(), before, name@);
            }
            named(parent.as_str(), styles, seen)?
        },
        None => Attrs::new(),
    };
    result.extend(style);
    proof {
        if !style@.contains_key(RESOLVER@) {
            assert(result@ =~= style@);
        }
    }
    Ok(result)
}

/// The parent's attributes that children inherit.
fn inherit(parent: &Attrs) -> (attrs: Attrs)
    ensures
        attrs@ == parent@.restrict(inherited_keys()),
{
    let mut attrs = Attrs::new();
    let mut i: usize = 0;
    while i < INHERITED.len()
        invariant
            i <= 18,
            INHERITED@.len() == 18,
            attrs@ == parent@.restrict(Set::new(|k: Seq<char>| exists|j: int| 0 <= j < i && (#[trigger] INHERITED@[j])@ == k)),
        decreases 18 - i,
    {
        let key = INHERITED[i];
        let ghost keys = Set::new(|k: Seq<char>| exists|j: int| 0 <= j < i && (#[trigger] INHERITED@[j])@ == k);
        let ghost next = Set::new(|k: Seq<char>| exists|j: int| 0 <= j < i + 1 && (#[trigger] INHERITED@[j])@ == k);
        assert(next =~= keys.insert(key@)) by {
            assert forall|k: Seq<char>| next.contains(k) implies #[trigger] keys.insert(key@).contains(k) by {
                let j = choose|j: int| 0 <= j < i + 1 && (#[trigger] INHERITED@[j])@ == k;
                if j < i {
                    assert(keys.contains(k));
                }
            }
            assert forall|k: Seq<char>| keys.insert(key@).contains(k) implies #[trigger] next.contains(k) by {
                if k == key@ {
                    assert(INHERITED@[i as int]@ == k);
                } else {
                    let j = choose|j: int| 0 <= j < i && (#[trigger] INHERITED@[j])@ == k;
                    assert(0 <= j < i + 1 && INHERITED@[j]@ == k);
                }
            }
        }
        match parent.get(key) {
            Some(value) => {
                attrs.insert(owned(key), value.clone());
                assert(attrs@ =~= parent@.restrict(next));
            },
            None => {
                assert(attrs@ =~= parent@.restrict(next));
            },
        }
        i += 1;
    }
    assert(inherited_keys() =~= Set::new(|k: Seq<char>| exists|j: int| 0 <= j < 18 && (#[trigger] INHERITED@[j])@ == k));
    attrs
}

/// An element's attributes: those it inherits, then those of its named
/// style, then its own.
pub open spec fn spec_resolved(
    node: XmlNodeView,
    parent: Map<Seq<char>, Seq<char>>,
    styles: Map<Seq<char>, Map<Seq<char>, Seq<char>>>,
) -> Result<Map<Seq<char>, Seq<char>>, Seq<char>> {
    let base = parent.restrict(inherited_keys());
    match first_attribute(node.attributes, RESOLVER@) {
        None => Ok(base.union_prefer_right(node_attrs(node))),
        Some(name) => match spec_named(name, styles, Seq::empty()) {
            Err(e) => Err(e),
            Ok(style) => Ok(base.union_prefer_right(style).union_prefer_right(node_attrs(node))),
        },
    }
}

fn resolve(node: &XmlNode, parent: &Attrs, styles: &Vec<(String, Attrs)>) -> (resolved: Result<Attrs, String>)
    requires
        map_of(styles.deep_view()).dom().finite(),
    ensures
        match resolved {
            Ok(a) => spec_resolved(node.deep_view(), parent@, map_of(styles.deep_view())) == Ok::<Map<Seq<char>, Seq<char>>, Seq<char>>(a@),
            Err(e) => spec_resolved(node.deep_view(), parent@, map_of(styles.deep_view())) == Err::<Map<Seq<char>, Seq<char>>, Seq<char>>(e@),
        },
{
    let mut resolved = inherit(parent);
    match attribute(node, RESOLVER) {
        Some(name) => {
            let mut seen: Vec<String> = Vec::new();
            assert(seen.deep_view() =~= Seq::<Seq<char>>::empty());
            let style = named(name.as_str(), styles, &mut seen)?;
            resolved.extend(&style);
        },
        None => {},
    }
    resolved.extend(&attrs_of(node));
    Ok(resolved)
}

/// Whether the element carries text.
pub open spec fn is_text_tag(tag: Seq<char>) -> bool {
    tag == "content"@ || tag == "field"@ || tag == "space"@ || tag == "tab"@
}

/// An element's own text: for `content`, `field`, `space` and `tab`, the
/// characters `[startOffset, startOffset + length)` of the content pool,
/// or, without an offset, a tab for `tab`, a space for `space` and nothing
/// otherwise; nothing for other elements.
pub open spec fn spec_text(node: XmlNodeView, text: Seq<char>) -> Result<Seq<char>, Seq<char>> {
    if !is_text_tag(node.name) {
        Ok(Seq::empty())
    } else {
        match first_attribute(node.attributes, "startOffset"@) {
            None => if node.name == "tab"@ {
                Ok(seq!['\t'])
            } else if node.name == "space"@ {
                Ok(seq![' '])
            } else {
                Ok(Seq::empty())
            },
            Some(offset) => match usize_from_str(offset) {
                None => Err(BAD_OFFSET@),
                Some(start) => {
                    let length = match first_attribute(node.attributes, "length"@) {
                        Some(l) => l,
                        None => Seq::empty(),
                    };
                    match usize_from_str(length) {
                        None => Err(BAD_LENGTH@),
                        Some(length) => if start + length > usize::MAX {
                            Err(BAD_RANGE@)
                        } else if start + length > text.len() {
                            Err(OUT_OF_RANGE@)
                        } else {
                            Ok(text.subrange(start as int, start + length))
                        },
                    }
                },
            },
        }
    }
}

fn element_text(node: &XmlNode, text: &Vec<char>) -> (content: Result<String, String>)
    ensures
        match content {
            Ok(c) => spec_text(node.deep_view(), text@) == Ok::<Seq<char>, Seq<char>>(c@),
            Err(e) => spec_text(node.deep_view(), text@) == Err::<Seq<char>, Seq<char>>(e@),
        },
{
    let tag = node.name.as_str();
    if !(str_eq(tag, "content") || str_eq(tag, "field") || str_eq(tag, "space") || str_eq(tag, "tab")) {
        return Ok(String::new());
    }
    match attribute(node, "startOffset") {
        None => {
            if str_eq(tag, "tab") {
                proof {
                    reveal_strlit("\t");
                    assert("\t"@ =~= seq!['\t']);
                }
                Ok(owned("\t"))
            } else if str_eq(tag, "space") {
                proof {
                    reveal_strlit(" ");
                    assert(" "@ =~= seq![' ']);
                }
                Ok(owned(" "))
            } else {
                Ok(String::new())
            }
        },
        Some(offset) => {
            let start = match parse_usize(offset.as_str()) {
                Some(start) => start,
                None => { return Err(owned(BAD_OFFSET)); },
            };
            let length = match attribute(node, "length") {
                Some(l) => parse_usize(l.as_str()),
                None => {
                    proof {
                        reveal_strlit("");
                        assert(""@ =~= Seq::<char>::empty());
                    }
                    parse_usize("")
                },
            };
            let length = match length {
                Some(length) => length,
                None => { return Err(owned(BAD_LENGTH)); },
            };
            let end = match start.checked_add(length) {
                Some(end) => end,
                None => { return Err(owned(BAD_RANGE)); },
            };
            if end > text.len() {
                return Err(owned(OUT_OF_RANGE));
            }
            Ok(string_of(text, start, end))
        },
    }
}


/// The element at position `i` of the node list and its descendants, with
/// attributes resolved against those of its parent. Nesting deeper than 100
/// levels is refused.
pub open spec fn spec_element(
    nodes: Seq<XmlNodeView>,
    i: usize,
    parent: Map<Seq<char>, Seq<char>>,
    styles: Map<Seq<char>, Map<Seq<char>, Seq<char>>>,
    text: Seq<char>,
    depth: int,
) -> Result<ElementModel, Seq<char>>
    decreases 101 - depth, 1int, 0int,
{
    if depth > 100 || depth < 0 {
        Err(NESTING@)
    } else {
        match spec_resolved(nodes[i as int], parent, styles) {
            Err(e) => Err(e),
            Ok(resolved) => match spec_text(nodes[i as int], text) {
                Err(e) => Err(e),
                Ok(content) => match spec_children(nodes, element_children(nodes, i), resolved, styles, text, depth) {
                    Err(e) => Err(e),
                    Ok(children) => Ok(ElementModel { tag: nodes[i as int].name, attrs: resolved, text: content, children }),
                },
            },
        }
    }
}

/// The given child elements in order, one level below `depth`; the first
/// that fails decides the error.
pub open spec fn spec_children(
    nodes: Seq<XmlNodeView>,
    kids: Seq<usize>,
    parent: Map<Seq<char>, Seq<char>>,
    styles: Map<Seq<char>, Map<Seq<char>, Seq<char>>>,
    text: Seq<char>,
    depth: int,
) -> Result<Seq<ElementModel>, Seq<char>>
    decreases 101 - depth, 0int, kids.len(),
{
    if kids.len() == 0 || depth > 100 || depth < 0 {
        Ok(Seq::empty())
    } else {
        match spec_children(nodes, kids.drop_last(), parent, styles, text, depth) {
            Err(e) => Err(e),
            Ok(prefix) => match spec_element(nodes, kids.last(), parent, styles, text, depth + 1) {
                Err(e) => Err(e),
                Ok(child) => Ok(prefix.push(child)),
            },
        }
    }
}

/// Once a prefix of the children fails, so do all of them, with its error.
pub proof fn lemma_children_error(
    nodes: Seq<XmlNodeView>,
    kids: Seq<usize>,
    m: int,
    parent: Map<Seq<char>, Seq<char>>,
    styles: Map<Seq<char>, Map<Seq<char>, Seq<char>>>,
    text: Seq<char>,
    depth: int,
)
    requires
        0 <= m <= kids.len(),
        0 <= depth <= 100,
        spec_children(nodes, kids.take(m), parent, styles, text, depth) is Err,
    ensures
        spec_children(nodes, kids, parent, styles, text, depth) == spec_children(nodes, kids.take(m), parent, styles, text, depth),
    decreases kids.len() - m,
{
    if m < kids.len() {
        assert(kids.take(m + 1).drop_last() =~= kids.take(m));
        lemma_children_error(nodes, kids, m + 1, parent, styles, text, depth);
    } else {
        assert(kids.take(m) =~= kids);
    }
}

/// Every element of the tree sits at most 100 levels deep, `m` itself at
/// `depth`.
pub open spec fn nested_within(m: ElementModel, depth: int) -> bool
    decreases m,
{
    &&& depth <= 100
    &&& forall|c: int| 0 <= c < m.children.len() ==> nested_within(#[trigger] m.children[c], depth + 1)
}

/// Every element of the tree carries text only if it is `content`, `field`,
/// `space` or `tab`, and that text is a tab, a space, or a stretch of the
/// content pool.
pub open spec fn text_from_pool(m: ElementModel, pool: Seq<char>) -> bool
    decreases m,
{
    &&& (!is_text_tag(m.tag) ==> m.text.len() == 0)
    &&& (m.text.len() == 0 || m.text == seq!['\t'] || m.text == seq![' '] || exists|start: int, end: int|
        0 <= start <= end <= pool.len() && m.text == #[trigger] pool.subrange(start, end))
    &&& forall|c: int| 0 <= c < m.children.len() ==> text_from_pool(#[trigger] m.children[c], pool)
}

/// Every element of the tree passes on each inheritable attribute it has to
/// all its children.
pub open spec fn passes_on(m: ElementModel) -> bool
    decreases m,
{
    &&& forall|c: int, k: Seq<char>|
        0 <= c < m.children.len() && inherited_keys().contains(k) && #[trigger] m.attrs.contains_key(k)
            ==> (#[trigger] m.children[c]).attrs.contains_key(k)
    &&& forall|c: int| 0 <= c < m.children.len() ==> passes_on(#[trigger] m.children[c])
}

/// Every element of the tree has the attribute.
pub open spec fn all_have(m: ElementModel, key: Seq<char>) -> bool
    decreases m,
{
    &&& m.attrs.contains_key(key)
    &&& forall|c: int| 0 <= c < m.children.len() ==> all_have(#[trigger] m.children[c], key)
}

/// What an element that converts satisfies, from the element down: it
/// nests within the limit, takes its text from the pool, passes on what it
/// inherits, keeps every inheritable attribute of its parent, and keeps its
/// own attributes over inherited and styled ones.
pub proof fn lemma_element_tree(
    nodes: Seq<XmlNodeView>,
    i: usize,
    parent: Map<Seq<char>, Seq<char>>,
    styles: Map<Seq<char>, Map<Seq<char>, Seq<char>>>,
    text: Seq<char>,
    depth: int,
)
    requires
        0 <= depth,
        spec_element(nodes, i, parent, styles, text, depth) is Ok,
    ensures
        ({
            let m = spec_element(nodes, i, parent, styles, text, depth)->Ok_0;
            &&& nested_within(m, depth)
            &&& text_from_pool(m, text)
            &&& passes_on(m)
            &&& forall|k: Seq<char>| inherited_keys().contains(k) && parent.contains_key(k) ==> #[trigger] m.attrs.contains_key(k)
            &&& node_attrs(nodes[i as int]).submap_of(m.attrs)
        }),
    decreases 101 - depth, 1int, 0int,
{
    let node = nodes[i as int];
    let resolved = spec_resolved(node, parent, styles)->Ok_0;
    let kids = element_children(nodes, i);
    lemma_children_tree(nodes, kids, resolved, styles, text, depth);
    let m = spec_element(nodes, i, parent, styles, text, depth)->Ok_0;
    assert(m.children == spec_children(nodes, kids, resolved, styles, text, depth)->Ok_0);
    assert(m.attrs == resolved);
    let base = parent.restrict(inherited_keys());
    assert forall|k: Seq<char>| inherited_keys().contains(k) && parent.contains_key(k) implies #[trigger] m.attrs.contains_key(k) by {
        assert(base.contains_key(k));
    }
    assert(node_attrs(node).submap_of(m.attrs));
    let content = spec_text(node, text)->Ok_0;
    assert(m.text == content);
    if is_text_tag(node.name) && first_attribute(node.attributes, "startOffset"@) is Some && m.text.len() != 0 {
        let start = usize_from_str(first_attribute(node.attributes, "startOffset"@)->0)->0;
        let length = usize_from_str(match first_attribute(node.attributes, "length"@) {
            Some(l) => l,
            None => Seq::empty(),
        })->0;
        assert(m.text == text.subrange(start as int, start + length));
    }
    assert forall|c: int| 0 <= c < m.children.len() implies nested_within(#[trigger] m.children[c], depth + 1)
        && passes_on(m.children[c]) by {
        assert(nested_within(m.children[c], depth + 1));
        assert(passes_on(m.children[c]));
    }
    assert forall|c: int, k: Seq<char>|
        0 <= c < m.children.len() && inherited_keys().contains(k) && #[trigger] m.attrs.contains_key(k)
            implies (#[trigger] m.children[c]).attrs.contains_key(k) by {
        assert(resolved.contains_key(k));
    }
}

/// What children that convert satisfy: each as `lemma_element_tree` says,
/// one level below `depth`.
pub proof fn lemma_children_tree(
    nodes: Seq<XmlNodeView>,
    kids: Seq<usize>,
    parent: Map<Seq<char>, Seq<char>>,
    styles: Map<Seq<char>, Map<Seq<char>, Seq<char>>>,
    text: Seq<char>,
    depth: int,
)
    requires
        0 <= depth <= 100,
        spec_children(nodes, kids, parent, styles, text, depth) is Ok,
    ensures
        ({
            let cs = spec_children(nodes, kids, parent, styles, text, depth)->Ok_0;
            &&& cs.len() == kids.len()
            &&& forall|c: int| 0 <= c < cs.len() ==> {
                &&& #[trigger] nested_within(cs[c], depth + 1)
                &&& text_from_pool(cs[c], text)
                &&& passes_on(cs[c])
                &&& forall|k: Seq<char>| inherited_keys().contains(k) && parent.contains_key(k) ==> #[trigger] cs[c].attrs.contains_key(k)
            }
        }),
    decreases 101 - depth, 0int, kids.len(),
{
    if kids.len() > 0 {
        lemma_children_tree(nodes, kids.drop_last(), parent, styles, text, depth);
        lemma_element_tree(nodes, kids.last(), parent, styles, text, depth + 1);
    }
}

/// An element that passes on an inheritable attribute it has gives it to
/// every element below it.
pub proof fn lemma_all_have(m: ElementModel, key: Seq<char>)
    requires
        passes_on(m),
        inherited_keys().contains(key),
        m.attrs.contains_key(key),
    ensures
        all_have(m, key),
    decreases m,
{
    assert(forall|c: int| 0 <= c < m.children.len() ==> #[trigger] passes_on(m.children[c]));
    assert forall|c: int| 0 <= c < m.children.len() implies all_have(#[trigger] m.children[c], key) by {
        assert(passes_on(m.children[c]));
        assert(m.children[c].attrs.contains_key(key));
        lemma_all_have(m.children[c], key);
    }
}

/// Converts the element at position `i` and its descendants.
fn element(
    nodes: &Vec<XmlNode>,
    kids: &Vec<Vec<usize>>,
    i: usize,
    parent: &Attrs,
    styles: &Vec<(String, Attrs)>,
    text: &Vec<char>,
    depth: usize,
) -> (result: Result<Element, String>)
    requires
        i < nodes@.len(),
        kids@.len() == nodes@.len(),
        forall|p: int| 0 <= p < nodes@.len() ==> #[trigger] kids@[p]@ == element_children(nodes.deep_view(), p as usize),
        map_of(styles.deep_view()).dom().finite(),
        depth <= 101,
    ensures
        match result {
            Ok(e) => spec_element(nodes.deep_view(), i, parent@, map_of(styles.deep_view()), text@, depth as int)
                == Ok::<ElementModel, Seq<char>>(model_of(e)),
            Err(m) => spec_element(nodes.deep_view(), i, parent@, map_of(styles.deep_view()), text@, depth as int)
                == Err::<ElementModel, Seq<char>>(m@),
        },
    decreases 101 - depth,
{
    let ghost all = nodes.deep_view();
    let ghost style_map = map_of(styles.deep_view());
    if depth > 100 {
        return Err(owned(NESTING));
    }
    assert(all[i as int] == nodes@[i as int].deep_view());
    let resolved = resolve(&nodes[i], parent, styles)?;
    let content = element_text(&nodes[i], text)?;
    let list = &kids[i];
    let ghost kid_seq = list@;
    assert(kid_seq == element_children(all, i));
    let mut children: Vec<Element> = Vec::new();
    let mut k: usize = 0;
    assert(Seq::new(0, |m: int| model_of(children@[m])) =~= Seq::<ElementModel>::empty());
    assert(kid_seq.take(0).len() == 0);
    while k < list.len()
        invariant
            k <= list@.len(),
            kid_seq == list@,
            kid_seq == element_children(all, i),
            all == nodes.deep_view(),
            style_map == map_of(styles.deep_view()),
            kids@.len() == nodes@.len(),
            forall|p: int| 0 <= p < nodes@.len() ==> #[trigger] kids@[p]@ == element_children(nodes.deep_view(), p as usize),
            map_of(styles.deep_view()).dom().finite(),
            depth <= 100,
            i < nodes@.len(),
            spec_resolved(all[i as int], parent@, style_map) == Ok::<Map<Seq<char>, Seq<char>>, Seq<char>>(resolved@),
            spec_text(all[i as int], text@) == Ok::<Seq<char>, Seq<char>>(content@),
            children@.len() == k,
            spec_children(all, kid_seq.take(k as int), resolved@, style_map, text@, depth as int)
                == Ok::<Seq<ElementModel>, Seq<char>>(Seq::new(k as nat, |m: int| model_of(children@[m]))),
        decreases list@.len() - k,
    {
        let c = list[k];
        proof {
            positions(all.len()).lemma_filter_pred(element_child_of(all, i), k as int);
            assert(kid_seq.take(k + 1).drop_last() =~= kid_seq.take(k as int));
            assert(kid_seq.take(k + 1).last() == c);
        }
        let child = match element(nodes, kids, c, &resolved, styles, text, depth + 1) {
            Ok(child) => child,
            Err(e) => {
                proof {
                    assert(spec_children(all, kid_seq.take(k + 1), resolved@, style_map, text@, depth as int)
                        == Err::<Seq<ElementModel>, Seq<char>>(e@));
                    lemma_children_error(all, kid_seq, k + 1, resolved@, style_map, text@, depth as int);
                    assert(spec_children(all, element_children(all, i), resolved@, style_map, text@, depth as int)
                        == Err::<Seq<ElementModel>, Seq<char>>(e@));
                    assert(spec_resolved(all[i as int], parent@, style_map) == Ok::<Map<Seq<char>, Seq<char>>, Seq<char>>(resolved@));
                    assert(spec_text(all[i as int], text@) == Ok::<Seq<char>, Seq<char>>(content@));
                    assert(spec_element(all, i, parent@, style_map, text@, depth as int) == Err::<ElementModel, Seq<char>>(e@));
                }
                return Err(e);
            },
        };
        let ghost before = Seq::new(k as nat, |m: int| model_of(children@[m]));
        children.push(child);
        assert(Seq::new((k + 1) as nat, |m: int| model_of(children@[m])) =~= before.push(model_of(child)));
        k += 1;
    }
    assert(kid_seq.take(list@.len() as int) =~= kid_seq);
    let ghost models = Seq::new(k as nat, |m: int| model_of(children@[m]));
    let e = Element { tag: nodes[i].name.clone(), attrs: resolved, text: content, children };
    assert(model_of(e).children =~= models);
    Ok(e)
}


pub const MAX_XML_BYTES: usize = 32 * 1024 * 1024;
pub const TOO_LARGE: &'static str = "UDF exceeds the 32 MB PDF export limit.";
pub const XML_PREFIX: &'static str = "Invalid UDF XML: ";
pub const NOT_TEMPLATE: &'static str = "Expected a UDF template.";
pub const NO_CONTENT: &'static str = "UDF has no content.";

/// The element tree of a template and the attributes of its page format.
pub struct Template {
    pub elements: Vec<Element>,
    pub page_format: Attrs,
}

pub struct TemplateModel {
    pub elements: Seq<ElementModel>,
    pub page_format: Map<Seq<char>, Seq<char>>,
}

pub open spec fn models_of(elements: Seq<Element>) -> Seq<ElementModel> {
    Seq::new(elements.len(), |i: int| model_of(elements[i]))
}

impl DeepView for Template {
    type V = TemplateModel;

    open spec fn deep_view(&self) -> TemplateModel {
        TemplateModel { elements: models_of(self.elements@), page_format: self.page_format@ }
    }
}

/// The document element: the first element child of the root node.
pub open spec fn root_element(nodes: Seq<XmlNodeView>) -> Option<usize> {
    if nodes.len() == 0 || element_children(nodes, 0).len() == 0 {
        None
    } else {
        Some(element_children(nodes, 0)[0])
    }
}

/// Whether the node at `j` is a `style` element with a `name`.
pub open spec fn is_named_style(nodes: Seq<XmlNodeView>) -> spec_fn(usize) -> bool {
    |j: usize| nodes[j as int].name == "style"@ && first_attribute(nodes[j as int].attributes, "name"@) is Some
}

pub open spec fn style_entry(nodes: Seq<XmlNodeView>, j: usize) -> (Seq<char>, Map<Seq<char>, Seq<char>>) {
    (first_attribute(nodes[j as int].attributes, "name"@)->0, node_attrs(nodes[j as int]))
}

/// The named styles of the template in document order.
pub open spec fn styles_of(nodes: Seq<XmlNodeView>, root: usize) -> Seq<(Seq<char>, Map<Seq<char>, Seq<char>>)> {
    match find_child(nodes, root, "styles"@) {
        None => Seq::empty(),
        Some(s) => element_children(nodes, s).filter(is_named_style(nodes)).map_values(|j: usize| style_entry(nodes, j)),
    }
}

/// The attributes without a namespace, the first of each name counting.
pub open spec fn first_attributes(attributes: Seq<XmlAttributeView>) -> Map<Seq<char>, Seq<char>>
    decreases attributes.len(),
{
    if attributes.len() == 0 {
        Map::empty()
    } else {
        let rest = first_attributes(attributes.drop_first());
        if !attributes[0].namespaced {
            rest.insert(attributes[0].name, attributes[0].value)
        } else {
            rest
        }
    }
}

/// The attributes of `properties/pageFormat`, empty where there is none.
pub open spec fn page_format_of(nodes: Seq<XmlNodeView>, root: usize) -> Map<Seq<char>, Seq<char>> {
    match find_child(nodes, root, "properties"@) {
        None => Map::empty(),
        Some(p) => match find_child(nodes, p, "pageFormat"@) {
            None => Map::empty(),
            Some(f) => first_attributes(nodes[f as int].attributes),
        },
    }
}

pub open spec fn default_attrs() -> Map<Seq<char>, Seq<char>> {
    Map::empty().insert("family"@, "Times New Roman"@).insert("size"@, "12"@)
}

/// A template without elements shows its whole text as one paragraph.
pub open spec fn fallback(defaults: Map<Seq<char>, Seq<char>>, text: Seq<char>) -> Seq<ElementModel> {
    seq![ElementModel {
        tag: "paragraph"@,
        attrs: defaults,
        text: Seq::empty(),
        children: seq![ElementModel { tag: "content"@, attrs: defaults, text, children: Seq::empty() }],
    }]
}

/// The template that the XML text describes, or why it cannot be read.
pub open spec fn spec_parse(xml: Seq<char>) -> Result<TemplateModel, Seq<char>> {
    if encode_utf8(xml).len() > MAX_XML_BYTES {
        Err(TOO_LARGE@)
    } else {
        match xml_nodes(xml) {
            Err(e) => Err(XML_PREFIX@ + e),
            Ok(nodes) => spec_template(nodes),
        }
    }
}

/// The template that a document's nodes describe, in document order as
/// `xml_nodes` lists them, or why they describe none.
pub open spec fn spec_template(nodes: Seq<XmlNodeView>) -> Result<TemplateModel, Seq<char>> {
    match root_element(nodes) {
        None => Err(NOT_TEMPLATE@),
        Some(root) => if nodes[root as int].name != "template"@ {
            Err(NOT_TEMPLATE@)
        } else {
            match find_child(nodes, root, "content"@) {
                None => Err(NO_CONTENT@),
                Some(c) => {
                    let text = texts_of(nodes, all_children(nodes, c));
                    let styles = map_of(styles_of(nodes, root));
                    match spec_named("default"@, styles, Seq::empty()) {
                        Err(e) => Err(e),
                        Ok(named_default) => {
                            let defaults = default_attrs().union_prefer_right(named_default);
                            let elements = match find_child(nodes, root, "elements"@) {
                                Some(el) => if element_children(nodes, el).len() > 0 {
                                    match spec_element(nodes, el, defaults, styles, text, 0) {
                                        Err(e) => Err(e),
                                        Ok(m) => Ok(m.children),
                                    }
                                } else {
                                    Ok(fallback(defaults, text))
                                },
                                None => Ok(fallback(defaults, text)),
                            };
                            match elements {
                                Err(e) => Err(e),
                                Ok(elements) => Ok(TemplateModel { elements, page_format: page_format_of(nodes, root) }),
                            }
                        },
                    }
                },
            }
        },
    }
}

/// `family` and `size` are passed on to children.
pub proof fn lemma_font_keys_inherited()
    ensures
        inherited_keys().contains("family"@),
        inherited_keys().contains("size"@),
{
    assert(INHERITED@[0]@ == "family"@);
    assert(INHERITED@[1]@ == "size"@);
}

/// In a template that reads, every element has a font family and a size,
/// sits at most 100 levels deep, and passes each inheritable attribute it
/// has on to its children.
pub proof fn lemma_parsed_elements(xml: Seq<char>)
    requires
        spec_parse(xml) is Ok,
    ensures
        forall|e: int| 0 <= e < spec_parse(xml)->Ok_0.elements.len() ==> {
            let m = #[trigger] spec_parse(xml)->Ok_0.elements[e];
            &&& all_have(m, "family"@)
            &&& all_have(m, "size"@)
            &&& nested_within(m, 1)
            &&& passes_on(m)
        },
{
    lemma_font_keys_inherited();
    let nodes = xml_nodes(xml)->Ok_0;
    let root = root_element(nodes)->0;
    let c = find_child(nodes, root, "content"@)->0;
    let text = texts_of(nodes, all_children(nodes, c));
    let styles = map_of(styles_of(nodes, root));
    let named_default = spec_named("default"@, styles, Seq::empty())->Ok_0;
    let defaults = default_attrs().union_prefer_right(named_default);
    assert(defaults.contains_key("family"@) && defaults.contains_key("size"@));
    let t = spec_parse(xml)->Ok_0;
    match find_child(nodes, root, "elements"@) {
        Some(el) if element_children(nodes, el).len() > 0 => {
            lemma_element_tree(nodes, el, defaults, styles, text, 0);
            let top = spec_element(nodes, el, defaults, styles, text, 0)->Ok_0;
            assert(t.elements == top.children);
            assert forall|e: int| 0 <= e < t.elements.len() implies {
                let m = #[trigger] t.elements[e];
                &&& all_have(m, "family"@)
                &&& all_have(m, "size"@)
                &&& nested_within(m, 1)
                &&& passes_on(m)
            } by {
                let m = top.children[e];
                assert(top.attrs.contains_key("family"@) && top.attrs.contains_key("size"@));
                assert(m.attrs.contains_key("family"@) && m.attrs.contains_key("size"@));
                assert(passes_on(m));
                assert(nested_within(m, 1));
                lemma_all_have(m, "family"@);
                lemma_all_have(m, "size"@);
            }
        },
        _ => {
            let f = fallback(defaults, text);
            assert(t.elements == f);
            let content = f[0].children[0];
            assert(all_have(content, "family"@) && all_have(content, "size"@));
            assert(nested_within(content, 2) && passes_on(content));
            assert(all_have(f[0], "family"@) && all_have(f[0], "size"@));
            assert(nested_within(f[0], 1) && passes_on(f[0]));
        },
    }
}

/// The joined texts of all children of the node at `c`.
fn text_pool(nodes: &Vec<XmlNode>, c: usize) -> (pool: Vec<char>)
    ensures
        pool@ == texts_of(nodes.deep_view(), all_children(nodes.deep_view(), c)),
{
    let ghost all = nodes.deep_view();
    let mut pool: Vec<char> = Vec::new();
    let mut j: usize = 0;
    while j < nodes.len()
        invariant
            j <= nodes@.len(),
            all == nodes.deep_view(),
            pool@ == texts_of(all, positions(j as nat).filter(child_of(all, c))),
        decreases nodes@.len() - j,
    {
        let node = &nodes[j];
        assert(all[j as int] == node.deep_view());
        proof {
            assert(positions((j + 1) as nat) =~= positions(j as nat).push(j));
            positions(j as nat).lemma_filter_push(j, child_of(all, c));
            let f = positions(j as nat).filter(child_of(all, c));
            assert(f.push(j).drop_last() =~= f);
        }
        if node.parent == Some(c) {
            match &node.text {
                Some(t) => append_chars(&mut pool, t.as_str()),
                None => {
                    assert(pool@ =~= pool@ + Seq::<char>::empty());
                },
            }
        }
        j += 1;
    }
    pool
}

/// The named styles under the listed children of the `styles` element.
fn styles_list(nodes: &Vec<XmlNode>, kids: &Vec<usize>) -> (styles: Vec<(String, Attrs)>)
    requires
        forall|k: int| 0 <= k < kids@.len() ==> #[trigger] kids@[k] < nodes@.len(),
    ensures
        styles.deep_view() == kids@.filter(is_named_style(nodes.deep_view())).map_values(
            |j: usize| style_entry(nodes.deep_view(), j),
        ),
{
    let ghost all = nodes.deep_view();
    let ghost pred = is_named_style(all);
    let ghost entry = |j: usize| style_entry(all, j);
    let mut styles: Vec<(String, Attrs)> = Vec::new();
    let mut k: usize = 0;
    while k < kids.len()
        invariant
            k <= kids@.len(),
            all == nodes.deep_view(),
            pred == is_named_style(all),
            entry == (|j: usize| style_entry(all, j)),
            forall|m: int| 0 <= m < kids@.len() ==> #[trigger] kids@[m] < nodes@.len(),
            styles.deep_view() == kids@.take(k as int).filter(pred).map_values(entry),
        decreases kids@.len() - k,
    {
        let j = kids[k];
        let node = &nodes[j];
        assert(all[j as int] == node.deep_view());
        let ghost f = kids@.take(k as int).filter(pred);
        proof {
            assert(kids@.take(k + 1) =~= kids@.take(k as int).push(j));
            kids@.take(k as int).lemma_filter_push(j, pred);
        }
        if str_eq(node.name.as_str(), "style") {
            match attribute(node, "name") {
                Some(name) => {
                    let ghost before = styles.deep_view();
                    let attrs = attrs_of(node);
                    assert(pred(j));
                    assert(entry(j) == (name@, attrs@));
                    styles.push((name.clone(), attrs));
                    assert(styles.deep_view() =~= before.push(entry(j)));
                    assert(f.push(j).map_values(entry) =~= f.map_values(entry).push(entry(j)));
                },
                None => {},
            }
        }
        k += 1;
    }
    assert(kids@.take(kids@.len() as int) =~= kids@);
    styles
}

/// The attributes without a namespace, the first of each name counting.
fn first_attrs_of(node: &XmlNode) -> (attrs: Attrs)
    ensures
        attrs@ == first_attributes(node.deep_view().attributes),
{
    let ghost all = node.deep_view().attributes;
    let mut attrs = Attrs::new();
    let mut i = node.attributes.len();
    assert(all.skip(all.len() as int) =~= Seq::<XmlAttributeView>::empty());
    while i > 0
        invariant
            i <= node.attributes@.len(),
            all == node.deep_view().attributes,
            attrs@ == first_attributes(all.skip(i as int)),
        decreases i,
    {
        let k = i - 1;
        let a = &node.attributes[k];
        assert(all[k as int] == a.deep_view());
        assert(all.skip(k as int).drop_first() =~= all.skip(i as int));
        assert(all.skip(k as int)[0] == all[k as int]);
        if !a.namespaced {
            attrs.insert(a.name.clone(), a.value.clone());
        }
        i = k;
    }
    assert(all.skip(0) =~= all);
    attrs
}

/// Reads a template from the nodes of its XML document, in document order
/// as `xml_nodes` lists them: its element tree with resolved styles and
/// text, and the attributes of its page format.
pub fn template_from_nodes(nodes: &Vec<XmlNode>) -> (template: Result<Template, String>)
    ensures
        match template {
            Ok(t) => spec_template(nodes.deep_view()) == Ok::<TemplateModel, Seq<char>>(t.deep_view()),
            Err(e) => spec_template(nodes.deep_view()) == Err::<TemplateModel, Seq<char>>(e@),
        },
{
    let ghost all = nodes.deep_view();
    if nodes.len() == 0 {
        return Err(owned(NOT_TEMPLATE));
    }
    let kids = element_child_lists(nodes);
    assert(forall|p: int, k: int| 0 <= p < nodes@.len() && 0 <= k < kids@[p]@.len() ==> #[trigger] kids@[p]@[k] < nodes@.len()) by {
        assert forall|p: int, k: int| 0 <= p < nodes@.len() && 0 <= k < kids@[p]@.len() implies #[trigger] kids@[p]@[k] < nodes@.len() by {
            positions(all.len()).lemma_filter_pred(element_child_of(all, p as usize), k);
        }
    }
    if kids[0].len() == 0 {
        return Err(owned(NOT_TEMPLATE));
    }
    let root = kids[0][0];
    assert(all[root as int] == nodes@[root as int].deep_view());
    if !str_eq(nodes[root].name.as_str(), "template") {
        return Err(owned(NOT_TEMPLATE));
    }
    let c = match find_child_in(nodes, &kids[root], "content") {
        Some(c) => c,
        None => { return Err(owned(NO_CONTENT)); },
    };
    let text = text_pool(nodes, c);
    let styles = match find_child_in(nodes, &kids[root], "styles") {
        Some(s) => styles_list(nodes, &kids[s]),
        None => Vec::new(),
    };
    assert(styles.deep_view() =~= styles_of(all, root));
    proof {
        lemma_map_of_finite(styles.deep_view());
    }
    let mut seen: Vec<String> = Vec::new();
    assert(seen.deep_view() =~= Seq::<Seq<char>>::empty());
    let named_default = named("default", &styles, &mut seen)?;
    let mut defaults = Attrs::new();
    defaults.insert(owned("family"), owned("Times New Roman"));
    defaults.insert(owned("size"), owned("12"));
    defaults.extend(&named_default);
    let elements_node = find_child_in(nodes, &kids[root], "elements");
    let elements = match elements_node {
        Some(el) if kids[el].len() > 0 => {
            let top = element(nodes, &kids, el, &defaults, &styles, &text, 0)?;
            assert(models_of(top.children@) =~= model_of(top).children);
            top.children
        },
        _ => {
            let content = Element {
                tag: owned("content"),
                attrs: defaults.cloned(),
                text: string_of(&text, 0, text.len()),
                children: Vec::new(),
            };
            let paragraph = Element {
                tag: owned("paragraph"),
                attrs: defaults,
                text: String::new(),
                children: vec![content],
            };
            let elements = vec![paragraph];
            assert(text@.subrange(0, text@.len() as int) =~= text@);
            assert(model_of(content).children =~= Seq::<ElementModel>::empty());
            assert(model_of(paragraph).children =~= seq![model_of(content)]);
            assert(models_of(elements@) =~= fallback(defaults@, text@));
            elements
        },
    };
    let page_format = match find_child_in(nodes, &kids[root], "properties") {
        Some(p) => match find_child_in(nodes, &kids[p], "pageFormat") {
            Some(f) => {
                assert(all[f as int] == nodes@[f as int].deep_view());
                first_attrs_of(&nodes[f])
            },
            None => Attrs::new(),
        },
        None => Attrs::new(),
    };
    Ok(Template { elements, page_format })
}

/// Reads a UDF template: its element tree with resolved styles and text,
/// and the attributes of its page format. The page geometry is left to the
/// caller.
pub fn parse_template(xml: &str) -> (template: Result<Template, String>)
    ensures
        match template {
            Ok(t) => spec_parse(xml@) == Ok::<TemplateModel, Seq<char>>(t.deep_view()),
            Err(e) => spec_parse(xml@) == Err::<TemplateModel, Seq<char>>(e@),
        },
{
    if xml.as_bytes().len() > MAX_XML_BYTES {
        return Err(owned(TOO_LARGE));
    }
    let nodes = match parse_xml(xml) {
        Ok(nodes) => nodes,
        Err(e) => {
            let mut message = owned(XML_PREFIX);
            message.append(e.as_str());
            return Err(message);
        },
    };
    template_from_nodes(&nodes)
}

} // verus!
