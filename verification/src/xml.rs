//! The XML element tree the embedded metadata is read through.
//!
//! The library holds an XML element as plain values: a name, attributes in
//! strictly increasing key order, the element's text, and its element
//! children in document order. Parsing the XML source is the work of an
//! outside crate behind a trusted wrapper; every walk over the tree — child
//! lookup, path descent, typed text, attribute-keyed collection — is
//! verified here.

use crate::text::parse_i32;
use crate::text::parse_u64;
use crate::text::parse_usize;
use crate::text::spec_dec_val;
use crate::text::spec_i32_val;
use crate::text::spec_is_i32;
use crate::text::spec_is_u64;
use crate::text::spec_unsigned_digits;
use crate::text::str_eq;
use crate::Error;
use vstd::prelude::*;

verus! {

/// An XML element: a name, attributes, the concatenated text content, and
/// the element children in document order.
pub struct XmlElement {
    pub name: String,
    pub attributes: Vec<(String, String)>,
    pub text: Option<String>,
    pub children: Vec<XmlElement>,
}

/// The attribute map a list of key-value pairs denotes; a repeated key
/// keeps its last value.
pub open spec fn spec_attrs_map(s: Seq<(String, String)>) -> Map<Seq<char>, Seq<char>>
    decreases s.len(),
{
    if s.len() == 0 {
        Map::empty()
    } else {
        spec_attrs_map(s.drop_last()).insert(s.last().0@, s.last().1@)
    }
}

/// A key is in the map exactly when some pair holds it, and it maps to that
/// pair's value when the keys are distinct.
pub proof fn lemma_attrs_map(s: Seq<(String, String)>, k: Seq<char>)
    ensures
        spec_attrs_map(s).contains_key(k) <==> exists|i: int|
            0 <= i < s.len() && #[trigger] s[i].0@ == k,
        forall|i: int|
            0 <= i < s.len() && #[trigger] s[i].0@ == k && (forall|j: int|
                i < j < s.len() ==> #[trigger] s[j].0@ != k) ==> spec_attrs_map(s).contains_key(k)
                && spec_attrs_map(s)[k] == s[i].1@,
    decreases s.len(),
{
    if s.len() > 0 {
        lemma_attrs_map(s.drop_last(), k);
        assert forall|i: int| 0 <= i < s.len() - 1 implies s.drop_last()[i] == s[i] by {}
    }
}

impl XmlElement {
    /// The element's attributes as a map.
    pub open spec fn spec_attrs(self) -> Map<Seq<char>, Seq<char>> {
        spec_attrs_map(self.attributes@)
    }

    /// The element's text content, as characters.
    pub open spec fn spec_text(self) -> Option<Seq<char>> {
        match self.text {
            Some(t) => Some(t@),
            None => None,
        }
    }

    /// Attribute keys are distinct, here and in every descendant.
    pub open spec fn wf(self) -> bool
        decreases self,
    {
        &&& forall|i: int, j: int|
            0 <= i < j < self.attributes@.len() ==> (#[trigger] self.attributes@[i]).0@ != (
            #[trigger] self.attributes@[j]).0@
        &&& forall|i: int| 0 <= i < self.children@.len() ==> (#[trigger] self.children@[i]).wf()
    }
}

/// The tree that parsing an XML document yields, or nothing where the text
/// is not well-formed XML. The result depends on the text alone.
pub uninterp spec fn xml_tree_of(s: Seq<char>) -> Option<XmlElement>;

/// Relies on `xmltree::Element::parse` with sorted attributes: returns the
/// document's root element exactly when the text parses as XML. The tree
/// depends on the text alone, and its attribute keys are distinct on every
/// element.
#[verifier::external_body]
pub fn parse_xml(source: &String) -> (r: Result<XmlElement, Error>)
    ensures
        match r {
            Ok(e) => xml_tree_of(source@) == Some(e) && e.wf(),
            Err(err) => xml_tree_of(source@) is None && err.is_format(),
        },
{
    match xmltree::Element::parse(source.as_bytes()) {
        Ok(e) => Ok(convert_element(&e)),
        Err(_) => Err(Error::Format("the metadata XML cannot be parsed".to_owned())),
    }
}

/// The outside parser's element type, declared so a wrapper can take it;
/// the library never looks inside a value of it.
#[verifier::external_type_specification]
#[verifier::external_body]
pub struct ExXmltreeElement(xmltree::Element);

/// Relies on xmltree's `Element`: copies its name, attributes (in their
/// sorted order), text and element children, one for one, into the
/// library's element type.
#[verifier::external_body]
fn convert_element(e: &xmltree::Element) -> XmlElement {
    XmlElement {
        name: e.name.clone(),
        attributes: e.attributes.iter().map(|(k, v)| (k.clone(), v.clone())).collect(),
        text: e.get_text().map(|t| t.into_owned()),
        children: e.children.iter().filter_map(|n| n.as_element()).map(convert_element).collect(),
    }
}

/// The first element of the sequence whose name reads `name`.
pub open spec fn spec_find_child(cs: Seq<XmlElement>, name: Seq<char>) -> Option<XmlElement>
    decreases cs.len(),
{
    if cs.len() == 0 {
        None
    } else if cs[0].name@ == name {
        Some(cs[0])
    } else {
        spec_find_child(cs.drop_first(), name)
    }
}

/// A child found by name is well formed when its parent is.
pub proof fn lemma_find_child_wf(e: XmlElement, name: Seq<char>)
    requires
        e.wf(),
        spec_find_child(e.children@, name) is Some,
    ensures
        spec_find_child(e.children@, name)->0.wf(),
{
    lemma_find_child_member(e.children@, name);
}

/// A found child is a member of the sequence.
proof fn lemma_find_child_member(cs: Seq<XmlElement>, name: Seq<char>)
    requires
        spec_find_child(cs, name) is Some,
    ensures
        exists|i: int| 0 <= i < cs.len() && #[trigger] cs[i] == spec_find_child(cs, name)->0,
    decreases cs.len(),
{
    if cs.len() > 0 && cs[0].name@ != name {
        lemma_find_child_member(cs.drop_first(), name);
        let i = choose|i: int|
            0 <= i < cs.drop_first().len() && #[trigger] cs.drop_first()[i] == spec_find_child(
                cs.drop_first(),
                name,
            )->0;
        assert(cs[i + 1] == cs.drop_first()[i]);
    }
}

/// The element reached by descending through children by name, step by
/// step; nothing as soon as a step is missing.
pub open spec fn spec_drill(e: XmlElement, path: Seq<Seq<char>>) -> Option<XmlElement>
    decreases path.len(),
{
    if path.len() == 0 {
        Some(e)
    } else {
        match spec_find_child(e.children@, path[0]) {
            Some(c) => spec_drill(c, path.drop_first()),
            None => None,
        }
    }
}

/// The element a descent reaches is well formed when its start is.
pub proof fn lemma_drill_wf(e: XmlElement, path: Seq<Seq<char>>)
    requires
        e.wf(),
        spec_drill(e, path) is Some,
    ensures
        spec_drill(e, path)->0.wf(),
    decreases path.len(),
{
    if path.len() > 0 {
        lemma_find_child_wf(e, path[0]);
        lemma_drill_wf(spec_find_child(e.children@, path[0])->0, path.drop_first());
    }
}

impl XmlElement {
    /// The first child element with the given name.
    pub fn get_child(&self, name: &str) -> (r: Option<&XmlElement>)
        ensures
            match r {
                Some(c) => spec_find_child(self.children@, name@) == Some(*c),
                None => spec_find_child(self.children@, name@) is None,
            },
    {
        let ghost cs = self.children@;
        let n = self.children.len();
        let mut i: usize = 0;
        proof {
            assert(cs.skip(0) =~= cs);
        }
        while i < n
            invariant
                n == cs.len(),
                i <= n,
                cs == self.children@,
                spec_find_child(cs, name@) == spec_find_child(cs.skip(i as int), name@),
            decreases n - i,
        {
            proof {
                assert(cs.skip(i as int)[0] == cs[i as int]);
                assert(cs.skip(i as int).drop_first() =~= cs.skip(i + 1));
            }
            if str_eq(self.children[i].name.as_str(), name) {
                return Some(&self.children[i]);
            }
            i = i + 1;
        }
        proof {
            assert(cs.skip(n as int) =~= Seq::<XmlElement>::empty());
        }
        None
    }

    /// The element's text content, if it has any.
    pub fn get_text(&self) -> (r: Option<&String>)
        ensures
            match r {
                Some(t) => self.spec_text() == Some(t@),
                None => self.spec_text() is None,
            },
    {
        match &self.text {
            Some(t) => Some(t),
            None => None,
        }
    }

    /// The value of the attribute with the given key, where the element's
    /// attribute keys are distinct.
    #[verifier::loop_isolation(false)]
    pub fn attr_get(&self, key: &str) -> (r: Option<&String>)
        requires
            self.wf(),
        ensures
            match r {
                Some(v) => self.spec_attrs().contains_key(key@) && self.spec_attrs()[key@] == v@,
                None => !self.spec_attrs().contains_key(key@),
            },
    {
        proof {
            lemma_attrs_map(self.attributes@, key@);
        }
        let n = self.attributes.len();
        let mut i: usize = 0;
        while i < n
            invariant
                n == self.attributes@.len(),
                i <= n,
                forall|k: int| 0 <= k < i ==> (#[trigger] self.attributes@[k]).0@ != key@,
            decreases n - i,
        {
            if str_eq(self.attributes[i].0.as_str(), key) {
                proof {
                    assert forall|j: int| i < j < self.attributes@.len() implies (
                    #[trigger] self.attributes@[j]).0@ != key@ by {
                        assert((self.attributes@[i as int]).0@ == key@);
                    }
                    assert(self.spec_attrs().contains_key(key@) && self.spec_attrs()[key@]
                        == self.attributes@[i as int].1@);
                }
                return Some(&self.attributes[i].1);
            }
            i = i + 1;
        }
        None
    }

    /// The element reached by descending through children by the names in
    /// `path`, in order. Fails with a `Format` error at the first missing
    /// step.
    pub fn drill_down<'a>(&'a self, path: &[&str]) -> (r: Result<&'a XmlElement, Error>)
        ensures
            match r {
                Ok(c) => spec_drill(*self, path@.map_values(|p: &str| p@)) == Some(*c),
                Err(e) => spec_drill(*self, path@.map_values(|p: &str| p@)) is None
                    && e.is_format(),
            },
    {
        let ghost names = path@.map_values(|p: &str| p@);
        let mut cur: &XmlElement = self;
        let n = path.len();
        let mut i: usize = 0;
        proof {
            assert(names.skip(0) =~= names);
        }
        while i < n
            invariant
                n == path@.len(),
                i <= n,
                names == path@.map_values(|p: &str| p@),
                names.len() == n,
                spec_drill(*self, names) == spec_drill(*cur, names.skip(i as int)),
            decreases n - i,
        {
            proof {
                assert(names.skip(i as int)[0] == names[i as int]);
                assert(names.skip(i as int).drop_first() =~= names.skip(i + 1));
            }
            match cur.get_child(path[i]) {
                Some(c) => {
                    cur = c;
                },
                None => {
                    return Err(
                        Error::Format("an element named in the path is missing".to_owned()),
                    );
                },
            }
            i = i + 1;
        }
        proof {
            assert(names.skip(n as int) =~= Seq::<Seq<char>>::empty());
        }
        Ok(cur)
    }

    /// The element's text, cloned. Fails with a `Format` error when the
    /// element has none.
    pub fn text_string(&self) -> (r: Result<String, Error>)
        ensures
            match r {
                Ok(t) => self.spec_text() == Some(t@),
                Err(e) => self.spec_text() is None && e.is_format(),
            },
    {
        match &self.text {
            Some(t) => Ok(t.clone()),
            None => Err(Error::Format("the element has no text".to_owned())),
        }
    }

    /// The element's text read as a decimal `u64`. A missing text is a
    /// `Format` error; undecodable text is a `Parse` error.
    pub fn text_u64(&self) -> (r: Result<u64, Error>)
        ensures
            r is Ok <==> self.spec_text() is Some && spec_is_u64(self.spec_text()->0),
            r is Ok ==> r->Ok_0 == spec_dec_val(spec_unsigned_digits(self.spec_text()->0)),
            r is Err ==> (r->Err_0.is_format() <==> self.spec_text() is None) && (
            r->Err_0.is_parse() <==> self.spec_text() is Some),
    {
        match &self.text {
            Some(t) => parse_u64(t.as_str()),
            None => Err(Error::Format("the element has no text".to_owned())),
        }
    }

    /// The element's text read as a decimal `i32`. A missing text is a
    /// `Format` error; undecodable text is a `Parse` error.
    pub fn text_i32(&self) -> (r: Result<i32, Error>)
        ensures
            r is Ok <==> self.spec_text() is Some && spec_is_i32(self.spec_text()->0),
            r is Ok ==> r->Ok_0 == spec_i32_val(self.spec_text()->0),
            r is Err ==> (r->Err_0.is_format() <==> self.spec_text() is None) && (
            r->Err_0.is_parse() <==> self.spec_text() is Some),
    {
        match &self.text {
            Some(t) => parse_i32(t.as_str()),
            None => Err(Error::Format("the element has no text".to_owned())),
        }
    }

    /// The element's text read as a decimal `usize`. A missing text is a
    /// `Format` error; undecodable text is a `Parse` error.
    pub fn text_usize(&self) -> (r: Result<usize, Error>)
        ensures
            r is Ok <==> self.spec_text() is Some && spec_is_u64(self.spec_text()->0)
                && spec_dec_val(spec_unsigned_digits(self.spec_text()->0)) <= usize::MAX,
            r is Ok ==> r->Ok_0 == spec_dec_val(spec_unsigned_digits(self.spec_text()->0)),
            r is Err ==> (r->Err_0.is_format() <==> self.spec_text() is None) && (
            r->Err_0.is_parse() <==> self.spec_text() is Some),
    {
        match &self.text {
            Some(t) => parse_usize(t.as_str()),
            None => Err(Error::Format("the element has no text".to_owned())),
        }
    }

    /// The named child's text, cloned. Fails with a `Format` error when the
    /// child is missing or has no text.
    pub fn child_into_string(&self, name: &str) -> (r: Result<String, Error>)
        ensures
            ({
                let c = spec_find_child(self.children@, name@);
                match r {
                    Ok(t) => c is Some && c->0.spec_text() == Some(t@),
                    Err(e) => e.is_format() && (c is None || c->0.spec_text() is None),
                }
            }),
    {
        match self.get_child(name) {
            Some(c) => c.text_string(),
            None => Err(Error::Format("the element has no such child".to_owned())),
        }
    }

    /// The named child's text read as a decimal `u64`. A missing child or
    /// missing text is a `Format` error; undecodable text is a `Parse`
    /// error.
    pub fn child_into_u64(&self, name: &str) -> (r: Result<u64, Error>)
        ensures
            ({
                let c = spec_find_child(self.children@, name@);
                &&& r is Ok <==> c is Some && c->0.spec_text() is Some && spec_is_u64(
                    c->0.spec_text()->0,
                )
                &&& r is Ok ==> r->Ok_0 == spec_dec_val(
                    spec_unsigned_digits(c->0.spec_text()->0),
                )
                &&& r is Err ==> (r->Err_0.is_format() <==> (c is None || c->0.spec_text()
                    is None)) && (r->Err_0.is_parse() <==> (c is Some && c->0.spec_text()
                    is Some))
            }),
    {
        match self.get_child(name) {
            Some(c) => c.text_u64(),
            None => Err(Error::Format("the element has no such child".to_owned())),
        }
    }

    /// The named child's text read as a decimal `i32`. A missing child or
    /// missing text is a `Format` error; undecodable text is a `Parse`
    /// error.
    pub fn child_into_i32(&self, name: &str) -> (r: Result<i32, Error>)
        ensures
            ({
                let c = spec_find_child(self.children@, name@);
                &&& r is Ok <==> c is Some && c->0.spec_text() is Some && spec_is_i32(
                    c->0.spec_text()->0,
                )
                &&& r is Ok ==> r->Ok_0 == spec_i32_val(c->0.spec_text()->0)
                &&& r is Err ==> (r->Err_0.is_format() <==> (c is None || c->0.spec_text()
                    is None)) && (r->Err_0.is_parse() <==> (c is Some && c->0.spec_text()
                    is Some))
            }),
    {
        match self.get_child(name) {
            Some(c) => c.text_i32(),
            None => Err(Error::Format("the element has no such child".to_owned())),
        }
    }

    /// The named child's text read as a decimal `usize`. A missing child or
    /// missing text is a `Format` error; undecodable text is a `Parse`
    /// error.
    pub fn child_into_usize(&self, name: &str) -> (r: Result<usize, Error>)
        ensures
            ({
                let c = spec_find_child(self.children@, name@);
                &&& r is Ok <==> c is Some && c->0.spec_text() is Some && spec_is_u64(
                    c->0.spec_text()->0,
                ) && spec_dec_val(spec_unsigned_digits(c->0.spec_text()->0)) <= usize::MAX
                &&& r is Ok ==> r->Ok_0 == spec_dec_val(
                    spec_unsigned_digits(c->0.spec_text()->0),
                )
                &&& r is Err ==> (r->Err_0.is_format() <==> (c is None || c->0.spec_text()
                    is None)) && (r->Err_0.is_parse() <==> (c is Some && c->0.spec_text()
                    is Some))
            }),
    {
        match self.get_child(name) {
            Some(c) => c.text_usize(),
            None => Err(Error::Format("the element has no such child".to_owned())),
        }
    }
}

/// What collecting attribute-keyed values yields over a sequence of
/// children: for each element named `name`, the pair of its `key`
/// attribute and its `Value` child's text, in document order. Nothing when
/// such an element lacks the attribute, the child or the text.
pub open spec fn spec_collect_attributed(
    cs: Seq<XmlElement>,
    name: Seq<char>,
    key: Seq<char>,
) -> Option<Seq<(Seq<char>, Seq<char>)>>
    decreases cs.len(),
{
    if cs.len() == 0 {
        Some(Seq::empty())
    } else {
        let rest = spec_collect_attributed(cs.drop_first(), name, key);
        if cs[0].name@ != name {
            rest
        } else {
            let value = spec_find_child(cs[0].children@, "Value"@);
            if value is Some && value->0.spec_text() is Some && cs[0].spec_attrs().contains_key(
                key,
            ) {
                match rest {
                    Some(r) => Some(
                        seq![(cs[0].spec_attrs()[key], value->0.spec_text()->0)] + r,
                    ),
                    None => None,
                }
            } else {
                None
            }
        }
    }
}

impl XmlElement {
    /// For every child named `name`, the pair of its `key` attribute and
    /// its `Value` child's text, keyed in document order. Fails with a
    /// `Format` error when such a child lacks the attribute, the `Value`
    /// child or its text, or when no pair is found at all.
    #[verifier::loop_isolation(false)]
    pub fn collect_attributed_values(&self, name: &str, key: &str) -> (r: Result<
        Vec<(String, String)>,
        Error,
    >)
        requires
            self.wf(),
        ensures
            ({
                let c = spec_collect_attributed(self.children@, name@, key@);
                match r {
                    Ok(v) => {
                        &&& c is Some
                        &&& c->0.len() > 0
                        &&& v@.len() == c->0.len()
                        &&& forall|i: int|
                            0 <= i < v@.len() ==> (#[trigger] v@[i]).0@ == c->0[i].0 && v@[i].1@
                                == c->0[i].1
                    },
                    Err(e) => e.is_format() && (c is None || c->0.len() == 0),
                }
            }),
    {
        let ghost cs = self.children@;
        let ghost full = spec_collect_attributed(cs, name@, key@);
        let n = self.children.len();
        let mut out: Vec<(String, String)> = Vec::new();
        let mut i: usize = 0;
        proof {
            assert(cs.skip(0) =~= cs);
        }
        while i < n
            invariant
                i <= n,
                ({
                    let rest = spec_collect_attributed(cs.skip(i as int), name@, key@);
                    match full {
                        Some(f) => {
                            &&& rest is Some
                            &&& f.len() == out@.len() + rest->0.len()
                            &&& forall|k: int|
                                0 <= k < out@.len() ==> (#[trigger] out@[k]).0@ == f[k].0
                                    && out@[k].1@ == f[k].1
                            &&& forall|k: int|
                                0 <= k < rest->0.len() ==> #[trigger] rest->0[k] == f[
                                    out@.len() + k]
                        },
                        None => rest is None,
                    }
                }),
            decreases n - i,
        {
            let ghost pre = cs.skip(i as int);
            proof {
                assert(pre[0] == cs[i as int]);
                assert(pre.drop_first() =~= cs.skip(i + 1));
            }
            let child = &self.children[i];
            if str_eq(child.name.as_str(), name) {
                let value_text = match child.get_child("Value") {
                    Some(v) => match v.get_text() {
                        Some(t) => t.clone(),
                        None => {
                            return Err(
                                Error::Format("a value element holds no text".to_owned()),
                            );
                        },
                    },
                    None => {
                        return Err(Error::Format("a value element is missing".to_owned()));
                    },
                };
                let id = match child.attr_get(key) {
                    Some(v) => v.clone(),
                    None => {
                        return Err(Error::Format("a key attribute is missing".to_owned()));
                    },
                };
                proof {
                    let ghost v0 = spec_find_child(child.children@, "Value"@);
                    assert(value_text@ == v0->0.spec_text()->0);
                    assert(id@ == child.spec_attrs()[key@]);
                    let rest = spec_collect_attributed(pre, name@, key@);
                    let rest2 = spec_collect_attributed(cs.skip(i + 1), name@, key@);
                    if rest2 is Some {
                        assert(rest == Some(
                            seq![(child.spec_attrs()[key@], v0->0.spec_text()->0)] + rest2->0,
                        ));
                    }
                }
                out.push((id, value_text));
                proof {
                    let rest = spec_collect_attributed(pre, name@, key@);
                    let rest2 = spec_collect_attributed(cs.skip(i + 1), name@, key@);
                    if full is Some {
                        let f = full->0;
                        assert(rest->0[0] == (id@, value_text@));
                        assert forall|k: int| 0 <= k < rest2->0.len() implies #[trigger] rest2->0[k] == f[out@.len() + k] by {
                            assert(rest->0[k + 1] == rest2->0[k]);
                        }
                    }
                }
            }
            i = i + 1;
        }
        proof {
            assert(cs.skip(n as int) =~= Seq::<XmlElement>::empty());
        }
        if out.len() == 0 {
            return Err(Error::Format("no values found".to_owned()));
        }
        Ok(out)
    }
}

} // verus!
