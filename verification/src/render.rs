//! The grid renderer: folds a bit sequence into the symmetric grid and emits
//! one fill rectangle per set cell, wrapped in a root image element with an
//! optional background rectangle in front. The whole output string is pinned
//! down as a function of the inputs, so rendering is deterministic.

use vstd::prelude::*;
use vstd::arithmetic::div_mod::lemma_fundamental_div_mod;
use vstd::arithmetic::mul::lemma_mul_inequality;
use vstd::string::StringExecFns;

use simple_xml_builder::XMLElement;

use crate::errors::IdenticonError;
use crate::grid::{bits_needed, build_grid, grid_map};
use crate::options::Background;
use crate::xml::{
    dec_digits, elem_attrs, elem_children, elem_has_text, elem_tag, num_to_string, xml_add_attribute,
    xml_add_child, xml_doc, xml_escape, xml_new, xml_to_string,
};

verus! {

/// The `viewBox` attribute value: `0 0 {width} {width}`.
pub open spec fn viewbox_chars(width: int) -> Seq<char> {
    "0 0 "@ + dec_digits(width) + " "@ + dec_digits(width)
}

/// The attributes of the root image element, in emission order.
pub open spec fn svg_attrs(width: int) -> Seq<(Seq<char>, Seq<char>)> {
    seq![
        ("width"@, xml_escape(dec_digits(width))),
        ("height"@, xml_escape(dec_digits(width))),
        ("viewBox"@, xml_escape(viewbox_chars(width))),
        ("preserveAspectRatio"@, xml_escape("xMinYMin"@)),
        ("xmlns"@, xml_escape("http://www.w3.org/2000/svg"@)),
    ]
}

/// The attributes of the background rectangle: the full canvas, with the
/// requested corner radius and fill.
pub open spec fn bg_attrs(width: int, radius: int, color: Seq<char>) -> Seq<
    (Seq<char>, Seq<char>),
> {
    seq![
        ("x"@, xml_escape(dec_digits(0))),
        ("y"@, xml_escape(dec_digits(0))),
        ("width"@, xml_escape(dec_digits(width))),
        ("height"@, xml_escape(dec_digits(width))),
        ("rx"@, xml_escape(dec_digits(radius))),
        ("ry"@, xml_escape(dec_digits(radius))),
        ("fill"@, xml_escape(color)),
    ]
}

/// The attributes of one fill rectangle: position, cell side length, fill.
pub open spec fn rect_attrs(x: int, y: int, w: int, color: Seq<char>) -> Seq<
    (Seq<char>, Seq<char>),
> {
    seq![
        ("x"@, xml_escape(dec_digits(x))),
        ("y"@, xml_escape(dec_digits(y))),
        ("width"@, xml_escape(dec_digits(w))),
        ("height"@, xml_escape(dec_digits(w))),
        ("fill"@, xml_escape(color)),
    ]
}

/// One fill rectangle as a child of the document.
pub open spec fn rect_elem(x: int, y: int, w: int, color: Seq<char>) -> (
    Seq<char>,
    Seq<(Seq<char>, Seq<char>)>,
) {
    ("rect"@, rect_attrs(x, y, w, color))
}

/// The fill rectangles for the first `n` cells of the row-major map: one per
/// set cell, at `(margin + col * bw, margin + row * bw)`, in cell order.
pub open spec fn fill_children_upto(
    map: Seq<u16>,
    size: int,
    bw: int,
    margin: int,
    color: Seq<char>,
    n: int,
) -> Seq<(Seq<char>, Seq<(Seq<char>, Seq<char>)>)>
    decreases n,
{
    if n <= 0 {
        Seq::empty()
    } else {
        fill_children_upto(map, size, bw, margin, color, n - 1) + (if map[n - 1] == 1 {
            seq![
                rect_elem(
                    margin + ((n - 1) % size) * bw,
                    margin + ((n - 1) / size) * bw,
                    bw,
                    color,
                ),
            ]
        } else {
            Seq::empty()
        })
    }
}

/// The background child: one full-canvas rectangle when a background is
/// requested, nothing otherwise.
pub open spec fn bg_child(width: int, bg: Option<(int, Seq<char>)>) -> Seq<
    (Seq<char>, Seq<(Seq<char>, Seq<char>)>),
> {
    match bg {
        Some(b) => seq![("rect"@, bg_attrs(width, b.0, b.1))],
        None => Seq::empty(),
    }
}

/// All children of the document: the optional background rectangle first,
/// then the fill rectangles of every cell in row-major order.
pub open spec fn doc_children(
    map: Seq<u16>,
    size: int,
    width: int,
    bw: int,
    margin: int,
    color: Seq<char>,
    bg: Option<(int, Seq<char>)>,
) -> Seq<(Seq<char>, Seq<(Seq<char>, Seq<char>)>)> {
    bg_child(width, bg) + fill_children_upto(map, size, bw, margin, color, size * size)
}

/// The whole rendered document as a function of the inputs alone.
pub open spec fn render_spec(
    bits: Seq<u16>,
    size: int,
    width: int,
    color: Seq<char>,
    bg: Option<(int, Seq<char>)>,
) -> Seq<char> {
    let bw = width / (size + 1);
    let margin = bw / 2 + (width % (size + 1)) / 2;
    xml_doc(
        "svg"@,
        svg_attrs(width),
        doc_children(grid_map(bits, size), size, width, bw, margin, color, bg),
    )
}

/// The background description as the renderer's model sees it.
pub open spec fn bg_view(b: Option<&Background>) -> Option<(int, Seq<char>)> {
    match b {
        Some(bgr) => Some((bgr.r as int, bgr.color@)),
        None => None,
    }
}

/// Determinism: the rendered document is a function of the bit sequence and
/// the layout inputs alone, so two renderings of the same inputs are equal
/// character for character.
pub proof fn lemma_render_deterministic(
    bits: Seq<u16>,
    size: int,
    width: int,
    color: Seq<char>,
    bg: Option<(int, Seq<char>)>,
    s1: Seq<char>,
    s2: Seq<char>,
)
    requires
        s1 == render_spec(bits, size, width, color, bg),
        s2 == render_spec(bits, size, width, color, bg),
    ensures
        s1 == s2,
{
}

/// Background ordering: when a background is requested it is the first child
/// of the document, and every fill rectangle follows it, in the same
/// row-major order as without a background.
pub proof fn lemma_background_first(
    map: Seq<u16>,
    size: int,
    width: int,
    bw: int,
    margin: int,
    color: Seq<char>,
    radius: int,
    bgcolor: Seq<char>,
)
    ensures
        doc_children(map, size, width, bw, margin, color, Some((radius, bgcolor))).len() == 1
            + fill_children_upto(map, size, bw, margin, color, size * size).len(),
        doc_children(map, size, width, bw, margin, color, Some((radius, bgcolor)))[0] == (
            "rect"@,
            bg_attrs(width, radius, bgcolor),
        ),
        doc_children(map, size, width, bw, margin, color, Some((radius, bgcolor))).skip(1)
            == fill_children_upto(map, size, bw, margin, color, size * size),
{
    let bgp = bg_child(width, Some((radius, bgcolor)));
    let fills = fill_children_upto(map, size, bw, margin, color, size * size);
    assert(bgp.len() == 1);
    assert((bgp + fills)[0] == bgp[0]);
    assert((bgp + fills).skip(1) =~= fills);
}

/// Whether a child is a fill rectangle whose corner lies inside the canvas
/// band `[margin, margin + (size - 1) * bw]` in both coordinates.
pub open spec fn rect_within(
    e: (Seq<char>, Seq<(Seq<char>, Seq<char>)>),
    size: int,
    bw: int,
    margin: int,
    color: Seq<char>,
) -> bool {
    exists|x: int, y: int|
        margin <= x && x <= margin + (size - 1) * bw && margin <= y && y <= margin + (size - 1)
            * bw && e == rect_elem(x, y, bw, color)
}

/// Cell count bound: the first `n` cells emit at most `n` fill rectangles,
/// and each one sits at coordinates between `margin` and
/// `margin + (size - 1) * bw`.
pub proof fn lemma_cell_count_bound(
    map: Seq<u16>,
    size: int,
    bw: int,
    margin: int,
    color: Seq<char>,
    n: int,
)
    requires
        size >= 1,
        bw >= 0,
        0 <= n <= size * size,
    ensures
        fill_children_upto(map, size, bw, margin, color, n).len() <= n,
        forall|k: int|
            0 <= k < fill_children_upto(map, size, bw, margin, color, n).len()
                ==> rect_within(
                #[trigger] fill_children_upto(map, size, bw, margin, color, n)[k],
                size,
                bw,
                margin,
                color,
            ),
    decreases n,
{
    if n > 0 {
        lemma_cell_count_bound(map, size, bw, margin, color, n - 1);
        let prev = fill_children_upto(map, size, bw, margin, color, n - 1);
        let cur = fill_children_upto(map, size, bw, margin, color, n);
        if map[n - 1] == 1 {
            let c = (n - 1) % size;
            let r = (n - 1) / size;
            lemma_fundamental_div_mod(n - 1, size);
            assert(0 <= c < size);
            assert(r >= 0) by {
                if r < 0 {
                    assert(r <= -1);
                    lemma_mul_inequality(r, -1, size);
                    assert(r * size <= -1 * size);
                }
            }
            assert(r <= size - 1) by {
                if r >= size {
                    lemma_mul_inequality(size, r, size);
                    assert(size * size <= r * size);
                }
            }
            lemma_mul_inequality(c, size - 1, bw);
            lemma_mul_inequality(r, size - 1, bw);
            let x = margin + c * bw;
            let y = margin + r * bw;
            assert(c * bw >= 0) by (nonlinear_arith)
                requires
                    c >= 0 && bw >= 0,
            ;
            assert(r * bw >= 0) by (nonlinear_arith)
                requires
                    r >= 0 && bw >= 0,
            ;
            assert(cur[n - 1 - (n - 1 - prev.len() as int)] == cur[prev.len() as int]);
            assert(cur[prev.len() as int] == rect_elem(x, y, bw, color));
            assert(rect_within(cur[prev.len() as int], size, bw, margin, color));
            assert forall|k: int| 0 <= k < cur.len() implies rect_within(
                #[trigger] cur[k],
                size,
                bw,
                margin,
                color,
            ) by {
                if k < prev.len() {
                    assert(cur[k] == prev[k]);
                }
            }
        } else {
            assert(cur =~= prev);
        }
    }
}

impl Background {
    /// The background as a document child: a full-canvas rectangle with the
    /// stored corner radius and fill color.
    fn to_elem(&self, width: u16) -> (e: XMLElement)
        ensures
            elem_tag(e) == "rect"@,
            elem_attrs(e) == bg_attrs(width as int, self.r as int, self.color@),
            elem_children(e).len() == 0,
            !elem_has_text(e),
    {
        proof {
            crate::xml::lemma_attr_names_distinct();
        }
        let mut child = xml_new("rect");
        let zero = num_to_string(0);
        let ws = num_to_string(width as usize);
        let rs = num_to_string(self.r as usize);
        xml_add_attribute(&mut child, "x", zero.as_str());
        xml_add_attribute(&mut child, "y", zero.as_str());
        xml_add_attribute(&mut child, "width", ws.as_str());
        xml_add_attribute(&mut child, "height", ws.as_str());
        xml_add_attribute(&mut child, "rx", rs.as_str());
        xml_add_attribute(&mut child, "ry", rs.as_str());
        xml_add_attribute(&mut child, "fill", self.color.as_str());
        proof {
            assert(elem_attrs(child) =~= bg_attrs(width as int, self.r as int, self.color@));
        }
        child
    }
}

/// One fill rectangle at `(x, y)` with side `w`.
fn make_fill_rect(x: usize, y: usize, w: usize, color: &str) -> (e: XMLElement)
    ensures
        elem_tag(e) == "rect"@,
        elem_attrs(e) == rect_attrs(x as int, y as int, w as int, color@),
        elem_children(e).len() == 0,
        !elem_has_text(e),
{
    proof {
        crate::xml::lemma_attr_names_distinct();
    }
    let mut child = xml_new("rect");
    let xs = num_to_string(x);
    let ys = num_to_string(y);
    let ws = num_to_string(w);
    xml_add_attribute(&mut child, "x", xs.as_str());
    xml_add_attribute(&mut child, "y", ys.as_str());
    xml_add_attribute(&mut child, "width", ws.as_str());
    xml_add_attribute(&mut child, "height", ws.as_str());
    xml_add_attribute(&mut child, "fill", color);
    proof {
        assert(elem_attrs(child) =~= rect_attrs(x as int, y as int, w as int, color@));
    }
    child
}

/// Renders the bit sequence as a vector-markup document. Rejects a zero side
/// length or width before any arithmetic, and a bit sequence shorter than
/// what the fill loop reads; otherwise the returned string is exactly the
/// document `render_spec` describes.
pub fn render(
    bits: &Vec<u16>,
    size: u16,
    width: u16,
    color: &str,
    background: Option<&Background>,
) -> (r: Result<String, IdenticonError>)
    ensures
        match r {
            Ok(doc) => size > 0 && width > 0 && bits@.len() >= bits_needed(size as int) && doc@
                == render_spec(bits@, size as int, width as int, color@, bg_view(background)),
            Err(e) => (e == IdenticonError::InvalidDimensions && (size == 0 || width == 0)) || (e
                == IdenticonError::InsufficientBitData && size > 0 && width > 0 && bits@.len()
                < bits_needed(size as int)),
        },
{
    if size == 0 || width == 0 {
        return Err(IdenticonError::InvalidDimensions);
    }
    let map = match build_grid(bits, size) {
        Ok(m) => m,
        Err(e) => {
            return Err(e);
        },
    };
    let size_us = size as usize;
    let width_us = width as usize;
    let bw = width_us / (size_us + 1);
    let margin = bw / 2 + (width_us % (size_us + 1)) / 2;
    let ghost sz = size as int;
    let ghost bgv = bg_view(background);

    proof {
        crate::xml::lemma_attr_names_distinct();
    }
    let mut svg = xml_new("svg");
    let ws = num_to_string(width_us);
    let mut vb = String::from_str("0 0 ");
    vb.append(ws.as_str());
    vb.append(" ");
    vb.append(ws.as_str());
    xml_add_attribute(&mut svg, "width", ws.as_str());
    xml_add_attribute(&mut svg, "height", ws.as_str());
    xml_add_attribute(&mut svg, "viewBox", vb.as_str());
    xml_add_attribute(&mut svg, "preserveAspectRatio", "xMinYMin");
    xml_add_attribute(&mut svg, "xmlns", "http://www.w3.org/2000/svg");
    proof {
        assert(vb@ == viewbox_chars(width as int));
        assert(elem_attrs(svg) =~= svg_attrs(width as int));
    }

    if let Some(bg) = background {
        let child = bg.to_elem(width);
        xml_add_child(&mut svg, child);
    }
    proof {
        assert(elem_children(svg) =~= bg_child(width as int, bgv));
    }

    proof {
        assert(size_us * size_us <= 0xffff_0001) by (nonlinear_arith)
            requires
                0 <= size_us && size_us <= 0xffff,
        ;
    }
    let total = size_us * size_us;
    proof {
        assert(total == sz * sz) by (nonlinear_arith)
            requires
                size_us == sz,
                total == size_us * size_us,
        ;
    }
    let mut i: usize = 0;
    while i < total
        invariant
            size_us == sz,
            1 <= sz <= 0xffff,
            width_us == width as int,
            1 <= width_us <= 0xffff,
            total == sz * sz,
            map@ == grid_map(bits@, sz),
            map@.len() == total,
            bw == width as int / (sz + 1),
            margin == bw / 2 + (width as int % (sz + 1)) / 2,
            bw <= 0xffff,
            margin <= 0xffff,
            i <= total,
            elem_tag(svg) == "svg"@,
            elem_attrs(svg) == svg_attrs(width as int),
            !elem_has_text(svg),
            elem_children(svg) == bg_child(width as int, bgv) + fill_children_upto(
                map@,
                sz,
                bw as int,
                margin as int,
                color@,
                i as int,
            ),
        decreases total - i,
    {
        if map[i] == 1 {
            let r = i / size_us;
            let c = i % size_us;
            proof {
                assert(i as int / sz < sz) by {
                    lemma_fundamental_div_mod(i as int, sz);
                    if i as int / sz >= sz {
                        lemma_mul_inequality(sz, i as int / sz, sz);
                    }
                }
                assert(c * bw + margin <= 0xffff_0000 && r * bw + margin <= 0xffff_0000)
                    by (nonlinear_arith)
                    requires
                        0 <= c <= 0xffff && 0 <= r <= 0xffff && 0 <= bw <= 0xffff && 0 <= margin
                            <= 0xffff,
                ;
            }
            let x = margin + c * bw;
            let y = margin + r * bw;
            let child = make_fill_rect(x, y, bw, color);
            xml_add_child(&mut svg, child);
            proof {
                let fprev = fill_children_upto(map@, sz, bw as int, margin as int, color@, i as int);
                assert(fill_children_upto(map@, sz, bw as int, margin as int, color@, i as int + 1) == fprev
                    + seq![rect_elem(margin as int + (i as int % sz) * (bw as int), margin as int + (i as int / sz) * (bw as int), bw as int, color@)]);
                assert(elem_children(svg) =~= bg_child(width as int, bgv) + fill_children_upto(
                    map@,
                    sz,
                    bw as int,
                    margin as int,
                    color@,
                    i as int + 1,
                ));
            }
        } else {
            proof {
                assert(fill_children_upto(map@, sz, bw as int, margin as int, color@, i as int + 1)
                    =~= fill_children_upto(map@, sz, bw as int, margin as int, color@, i as int));
            }
        }
        i += 1;
    }
    let out = xml_to_string(&svg);
    proof {
        assert(out@ == render_spec(bits@, sz, width as int, color@, bgv));
    }
    Ok(out)
}

} // verus!
