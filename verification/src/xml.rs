//! The vector-markup writer. The document is built through
//! `simple_xml_builder`, kept behind wrappers whose contracts speak of a
//! plain model of an element: its tag, its ordered attribute list, and the
//! tag/attribute pairs of its leaf children. The serialized document is named
//! as a function of exactly that model.

use vstd::prelude::*;
use vstd::string::StringExecFns;

use simple_xml_builder::XMLElement;

verus! {

#[verifier::external_type_specification]
#[verifier::external_body]
pub struct ExXMLElement(XMLElement);

/// The tag an element was created with.
pub uninterp spec fn elem_tag(e: XMLElement) -> Seq<char>;

/// The element's attributes in insertion order, each a name paired with the
/// stored (escaped) value.
pub uninterp spec fn elem_attrs(e: XMLElement) -> Seq<(Seq<char>, Seq<char>)>;

/// The element's children in insertion order, each a leaf recorded as its tag
/// paired with its attribute list.
pub uninterp spec fn elem_children(e: XMLElement) -> Seq<(Seq<char>, Seq<(Seq<char>, Seq<char>)>)>;

/// Whether the element holds character data instead of children.
pub uninterp spec fn elem_has_text(e: XMLElement) -> bool;

/// The serialized document for a root element with the given tag, attributes
/// and leaf children: a fixed declaration header followed by the indented
/// element tree, deterministic in the model alone.
pub uninterp spec fn xml_doc(
    tag: Seq<char>,
    attrs: Seq<(Seq<char>, Seq<char>)>,
    children: Seq<(Seq<char>, Seq<(Seq<char>, Seq<char>)>)>,
) -> Seq<char>;

/// The expansion of one character under XML attribute-value escaping.
pub open spec fn escape_char(c: char) -> Seq<char> {
    if c == '&' {
        "&amp;"@
    } else if c == '"' {
        "&quot;"@
    } else if c == '\'' {
        "&apos;"@
    } else if c == '<' {
        "&lt;"@
    } else if c == '>' {
        "&gt;"@
    } else {
        seq![c]
    }
}

/// XML attribute-value escaping, character by character.
pub open spec fn xml_escape(s: Seq<char>) -> Seq<char>
    decreases s.len(),
{
    if s.len() == 0 {
        Seq::empty()
    } else {
        escape_char(s[0]) + xml_escape(s.drop_first())
    }
}

/// Relies on `simple_xml_builder::XMLElement::new`: a fresh element carrying
/// the given tag, with no attributes, no children and no text.
#[verifier::external_body]
pub(crate) fn xml_new(tag: &str) -> (e: XMLElement)
    ensures
        elem_tag(e) == tag@,
        elem_attrs(e) == Seq::<(Seq<char>, Seq<char>)>::empty(),
        elem_children(e) == Seq::<(Seq<char>, Seq<(Seq<char>, Seq<char>)>)>::empty(),
        !elem_has_text(e),
{
    XMLElement::new(tag)
}

/// Relies on `simple_xml_builder::XMLElement::add_attribute`: the attribute
/// list keeps insertion order and the value is stored with the XML escapes
/// for `&`, `"`, `'`, `<` and `>` applied. A repeated name would overwrite in
/// place instead of appending, so a fresh name is demanded here.
#[verifier::external_body]
pub(crate) fn xml_add_attribute(e: &mut XMLElement, name: &str, value: &str)
    requires
        forall|j: int| 0 <= j < elem_attrs(*old(e)).len() ==> elem_attrs(*old(e))[j].0 != name@,
    ensures
        elem_tag(*final(e)) == elem_tag(*old(e)),
        elem_children(*final(e)) == elem_children(*old(e)),
        elem_has_text(*final(e)) == elem_has_text(*old(e)),
        elem_attrs(*final(e)) == elem_attrs(*old(e)).push((name@, xml_escape(value@))),
{
    e.add_attribute(name, value);
}

/// Relies on `simple_xml_builder::XMLElement::add_child`: the child is
/// appended after previously added children. The call panics on an element
/// that holds text, so such an element is refused here; only a childless,
/// textless child is accepted, which is what the recorded pair captures.
#[verifier::external_body]
pub(crate) fn xml_add_child(parent: &mut XMLElement, child: XMLElement)
    requires
        !elem_has_text(*old(parent)),
        !elem_has_text(child),
        elem_children(child).len() == 0,
    ensures
        elem_tag(*final(parent)) == elem_tag(*old(parent)),
        elem_attrs(*final(parent)) == elem_attrs(*old(parent)),
        !elem_has_text(*final(parent)),
        elem_children(*final(parent)) == elem_children(*old(parent)).push(
            (elem_tag(child), elem_attrs(child)),
        ),
{
    parent.add_child(child);
}

/// Relies on `simple_xml_builder::XMLElement::write`, reached through its
/// `Display` impl: the output is a deterministic function of the element's
/// tag, attribute list and children alone, and no other state.
#[verifier::external_body]
pub(crate) fn xml_to_string(e: &XMLElement) -> (r: String)
    requires
        !elem_has_text(*e),
    ensures
        r@ == xml_doc(elem_tag(*e), elem_attrs(*e), elem_children(*e)),
{
    e.to_string()
}

/// The attribute names the renderer uses are pairwise distinct, so every
/// `xml_add_attribute` call appends rather than overwrites.
pub(crate) proof fn lemma_attr_names_distinct()
    ensures
        "x"@ != "y"@,
        "width"@ != "x"@,
        "width"@ != "y"@,
        "height"@ != "x"@,
        "height"@ != "y"@,
        "height"@ != "width"@,
        "fill"@ != "x"@,
        "fill"@ != "y"@,
        "fill"@ != "width"@,
        "fill"@ != "height"@,
        "rx"@ != "x"@,
        "rx"@ != "y"@,
        "rx"@ != "width"@,
        "rx"@ != "height"@,
        "ry"@ != "x"@,
        "ry"@ != "y"@,
        "ry"@ != "width"@,
        "ry"@ != "height"@,
        "ry"@ != "rx"@,
        "fill"@ != "rx"@,
        "fill"@ != "ry"@,
        "viewBox"@ != "width"@,
        "viewBox"@ != "height"@,
        "preserveAspectRatio"@ != "width"@,
        "preserveAspectRatio"@ != "height"@,
        "preserveAspectRatio"@ != "viewBox"@,
        "xmlns"@ != "width"@,
        "xmlns"@ != "height"@,
        "xmlns"@ != "viewBox"@,
        "xmlns"@ != "preserveAspectRatio"@,
{
    reveal_strlit("x");
    reveal_strlit("y");
    reveal_strlit("rx");
    reveal_strlit("ry");
    reveal_strlit("width");
    reveal_strlit("height");
    reveal_strlit("fill");
    reveal_strlit("viewBox");
    reveal_strlit("preserveAspectRatio");
    reveal_strlit("xmlns");
    assert("x"@.len() == 1);
    assert("y"@.len() == 1);
    assert("rx"@.len() == 2);
    assert("ry"@.len() == 2);
    assert("width"@.len() == 5);
    assert("height"@.len() == 6);
    assert("fill"@.len() == 4);
    assert("viewBox"@.len() == 7);
    assert("preserveAspectRatio"@.len() == 19);
    assert("xmlns"@.len() == 5);
    assert("x"@[0] == 'x');
    assert("y"@[0] == 'y');
    assert("rx"@[1] == 'x');
    assert("ry"@[1] == 'y');
    assert("width"@[0] == 'w');
    assert("xmlns"@[0] == 'x');
}

/// The character that prints a single decimal digit.
pub open spec fn digit_char(d: int) -> char {
    if d == 0 {
        '0'
    } else if d == 1 {
        '1'
    } else if d == 2 {
        '2'
    } else if d == 3 {
        '3'
    } else if d == 4 {
        '4'
    } else if d == 5 {
        '5'
    } else if d == 6 {
        '6'
    } else if d == 7 {
        '7'
    } else if d == 8 {
        '8'
    } else {
        '9'
    }
}

/// The decimal expansion of a non-negative number, most significant digit
/// first, with no leading zeros (a lone zero for 0).
pub open spec fn dec_digits(n: int) -> Seq<char>
    decreases n,
{
    if n < 10 {
        seq![digit_char(n)]
    } else {
        dec_digits(n / 10).push(digit_char(n % 10))
    }
}

fn digit_str(d: usize) -> (r: &'static str)
    requires
        d < 10,
    ensures
        r@ == seq![digit_char(d as int)],
{
    if d == 0 {
        proof {
            reveal_strlit("0");
            assert("0"@ =~= seq![digit_char(0)]);
        }
        "0"
    } else if d == 1 {
        proof {
            reveal_strlit("1");
            assert("1"@ =~= seq![digit_char(1)]);
        }
        "1"
    } else if d == 2 {
        proof {
            reveal_strlit("2");
            assert("2"@ =~= seq![digit_char(2)]);
        }
        "2"
    } else if d == 3 {
        proof {
            reveal_strlit("3");
            assert("3"@ =~= seq![digit_char(3)]);
        }
        "3"
    } else if d == 4 {
        proof {
            reveal_strlit("4");
            assert("4"@ =~= seq![digit_char(4)]);
        }
        "4"
    } else if d == 5 {
        proof {
            reveal_strlit("5");
            assert("5"@ =~= seq![digit_char(5)]);
        }
        "5"
    } else if d == 6 {
        proof {
            reveal_strlit("6");
            assert("6"@ =~= seq![digit_char(6)]);
        }
        "6"
    } else if d == 7 {
        proof {
            reveal_strlit("7");
            assert("7"@ =~= seq![digit_char(7)]);
        }
        "7"
    } else if d == 8 {
        proof {
            reveal_strlit("8");
            assert("8"@ =~= seq![digit_char(8)]);
        }
        "8"
    } else {
        proof {
            reveal_strlit("9");
            assert("9"@ =~= seq![digit_char(9)]);
        }
        "9"
    }
}

/// The decimal expansion of `n` as a string.
pub(crate) fn num_to_string(n: usize) -> (r: String)
    ensures
        r@ == dec_digits(n as int),
    decreases n,
{
    if n < 10 {
        String::from_str(digit_str(n))
    } else {
        let mut s = num_to_string(n / 10);
        s.append(digit_str(n % 10));
        proof {
            assert(s@ =~= dec_digits(n as int / 10).push(digit_char(n as int % 10)));
        }
        s
    }
}

} // verus!
