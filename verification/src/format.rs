//! The rendering formatters: pure functions from an artifact reference, a
//! label and a renderer target to markup.
//!
//! `Html` and `Markdown` embed the rendered artifact as an image element;
//! `Latex` and `Tectonic` can typeset math natively, so for them the markup
//! re-wraps the (near-)original source in math delimiters instead.

use vstd::prelude::*;
use vstd::string::StringSliceAdditionalSpecFns;
use vstd::utf8::encode_utf8;

use crate::directive::RefTarget;
use crate::segment::{Content, ContentM};
use crate::text::{clone_bytes, dec_bytes, extend_bytes, push_dec};
use crate::trim::trim_spec;
use crate::types::SupportedRenderer;

verus! {

/// A rendered replace span: the span itself, the renderer's intermediate
/// representation (directly usable by math-native back ends), if any, and the
/// path of the rendered artifact.
#[derive(Debug, Clone)]
pub struct Replacement {
    /// The replace span this stands for.
    pub content: Content,
    /// Intermediate representation, if the renderer produced one.
    pub intermediate: Option<Vec<u8>>,
    /// Path of the rendered artifact.
    pub svg: String,
}

/// The mathematical model of a [`Replacement`].
pub struct ReplacementM {
    pub content: ContentM,
    pub intermediate: Option<Seq<u8>>,
    pub svg: Seq<char>,
}

impl View for Replacement {
    type V = ReplacementM;

    open spec fn view(&self) -> ReplacementM {
        ReplacementM {
            content: self.content@,
            intermediate: match self.intermediate {
                Some(ref i) => Some(i@),
                None => None,
            },
            svg: self.svg@,
        }
    }
}

/// The math source a math-native back end embeds: the intermediate
/// representation if there is one, the trimmed span body otherwise.
pub open spec fn inner_spec(rep: ReplacementM) -> Seq<u8> {
    match rep.intermediate {
        Some(i) => i,
        None => trim_spec(rep.content.text, rep.content.start_del, rep.content.end_del).body,
    }
}

impl Replacement {
    /// The intermediate representation if there is one, the trimmed span body
    /// otherwise.
    pub fn inner_str_or_intermediate(&self) -> (r: Vec<u8>)
        requires
            self.content.s@.len() < usize::MAX,
        ensures
            r@ == inner_spec(self@),
    {
        match self.intermediate {
            Some(ref i) => clone_bytes(i),
            None => self.content.trimmed().trimmed,
        }
    }
}

/// The renderer target embeds artifacts as images (as opposed to typesetting
/// math natively).
pub open spec fn is_image_target(renderer: SupportedRenderer) -> bool {
    renderer is Html || renderer is Markdown
}

/// The UTF-8 bytes of the artifact path.
pub open spec fn svg_bytes(rep: ReplacementM) -> Seq<u8> {
    encode_utf8(rep.svg)
}

/// Display math for a math-native back end: the source in `\[ \]`.
pub open spec fn math_markup(rep: ReplacementM) -> Seq<u8> {
    "\\[".spec_bytes() + inner_spec(rep) + "\\]".spec_bytes()
}

/// Inline math for a math-native back end: the source in `$ $`.
pub open spec fn inline_math_markup(rep: ReplacementM) -> Seq<u8> {
    "$".spec_bytes() + inner_spec(rep) + "$".spec_bytes()
}

/// The `<figure>` element of a rendered figure, with its caption.
pub open spec fn figure_markup(
    rep: ReplacementM,
    refer: Seq<u8>,
    head: Seq<u8>,
    counter: nat,
    title: Seq<u8>,
) -> Seq<u8> {
    "<figure id=\"".spec_bytes() + refer + "\" class=\"figure\">\n<object data=\"assets/".spec_bytes()
        + svg_bytes(rep) + "\" type=\"image/svg+xml\"/></object>\n<figcaption>Figure ".spec_bytes()
        + head + dec_bytes(counter) + " ".spec_bytes() + title + "</figcaption>\n</figure>".spec_bytes()
}

/// The numbered `<div>` element of a rendered equation with a label.
pub open spec fn equation_block_markup(
    rep: ReplacementM,
    refer: Seq<u8>,
    head: Seq<u8>,
    counter: nat,
) -> Seq<u8> {
    "<div id=\"".spec_bytes() + refer
        + "\" class=\"equation\">\n<div class=\"equation_inner\">\n<object data=\"assets/".spec_bytes()
        + svg_bytes(rep) + "\" type=\"image/svg+xml\"></object>\n</div><span>(".spec_bytes() + head
        + dec_bytes(counter) + ")</span>\n</div>".spec_bytes()
}

/// The unnumbered `<div>` element of a rendered equation.
pub open spec fn equation_markup(rep: ReplacementM) -> Seq<u8> {
    "<div class=\"equation\"><div class=\"equation_inner\"><object data=\"assets/".spec_bytes()
        + svg_bytes(rep) + "\" type=\"image/svg+xml\"></object></div></div>\n".spec_bytes()
}

/// The inline `<object>` element of a rendered inline equation.
pub open spec fn inline_equation_markup(rep: ReplacementM) -> Seq<u8> {
    "<object class=\"equation_inline\" data=\"assets/".spec_bytes() + svg_bytes(rep)
        + "\" type=\"image/svg+xml\"></object>".spec_bytes()
}

/// The anchor element of a resolved reference.
pub open spec fn reference_markup(target: RefTarget, key: Seq<u8>, label: Seq<u8>) -> Seq<u8> {
    match target {
        RefTarget::Figure => "<a class=\"fig_ref\" href='#".spec_bytes() + key + "'>".spec_bytes()
            + label + "</a>".spec_bytes(),
        RefTarget::Bibliography => "<a class=\"bib_ref\" href='bibliography.html#".spec_bytes()
            + key + "'>".spec_bytes() + label + "</a>".spec_bytes(),
        RefTarget::Equation => "<a class=\"equ_ref\" href='#".spec_bytes() + key
            + "'>Eq. (".spec_bytes() + label + ")</a>".spec_bytes(),
    }
}

/// Appends the artifact path's bytes.
fn push_svg(out: &mut Vec<u8>, replacement: &Replacement)
    ensures
        final(out)@ == old(out)@ + svg_bytes(replacement@),
{
    extend_bytes(out, replacement.svg.as_str().as_bytes());
}

/// Formats a figure render: an image element with caption for image targets,
/// display math for math-native targets.
pub fn format_figure(
    replacement: &Replacement,
    refer: &[u8],
    head_num: &[u8],
    figures_counter: usize,
    title: &[u8],
    renderer: SupportedRenderer,
) -> (r: Vec<u8>)
    requires
        replacement.content.s@.len() < usize::MAX,
    ensures
        is_image_target(renderer) ==> r@ == figure_markup(
            replacement@,
            refer@,
            head_num@,
            figures_counter as nat,
            title@,
        ),
        !is_image_target(renderer) ==> r@ == math_markup(replacement@),
{
    match renderer {
        SupportedRenderer::Html | SupportedRenderer::Markdown => {
            let mut out: Vec<u8> = Vec::new();
            extend_bytes(&mut out, "<figure id=\"".as_bytes());
            extend_bytes(&mut out, refer);
            extend_bytes(&mut out, "\" class=\"figure\">\n<object data=\"assets/".as_bytes());
            push_svg(&mut out, replacement);
            extend_bytes(
                &mut out,
                "\" type=\"image/svg+xml\"/></object>\n<figcaption>Figure ".as_bytes(),
            );
            extend_bytes(&mut out, head_num);
            push_dec(&mut out, figures_counter as u64);
            extend_bytes(&mut out, " ".as_bytes());
            extend_bytes(&mut out, title);
            extend_bytes(&mut out, "</figcaption>\n</figure>".as_bytes());
            proof {
                assert(out@ =~= figure_markup(
                    replacement@,
                    refer@,
                    head_num@,
                    figures_counter as nat,
                    title@,
                ));
            }
            out
        },
        SupportedRenderer::Latex | SupportedRenderer::Tectonic => {
            let mut out: Vec<u8> = Vec::new();
            extend_bytes(&mut out, "\\[".as_bytes());
            let inner = replacement.inner_str_or_intermediate();
            extend_bytes(&mut out, inner.as_slice());
            extend_bytes(&mut out, "\\]".as_bytes());
            proof {
                assert(out@ =~= math_markup(replacement@));
            }
            out
        },
    }
}

/// Formats an equation render with a label: a numbered equation element for
/// image targets, display math for math-native targets.
pub fn format_equation_block(
    replacement: &Replacement,
    refer: &[u8],
    head_num: &[u8],
    equations_counter: usize,
    renderer: SupportedRenderer,
) -> (r: Vec<u8>)
    requires
        replacement.content.s@.len() < usize::MAX,
    ensures
        is_image_target(renderer) ==> r@ == equation_block_markup(
            replacement@,
            refer@,
            head_num@,
            equations_counter as nat,
        ),
        !is_image_target(renderer) ==> r@ == math_markup(replacement@),
{
    match renderer {
        SupportedRenderer::Html | SupportedRenderer::Markdown => {
            let mut out: Vec<u8> = Vec::new();
            extend_bytes(&mut out, "<div id=\"".as_bytes());
            extend_bytes(&mut out, refer);
            extend_bytes(
                &mut out,
                "\" class=\"equation\">\n<div class=\"equation_inner\">\n<object data=\"assets/".as_bytes(),
            );
            push_svg(&mut out, replacement);
            extend_bytes(&mut out, "\" type=\"image/svg+xml\"></object>\n</div><span>(".as_bytes());
            extend_bytes(&mut out, head_num);
            push_dec(&mut out, equations_counter as u64);
            extend_bytes(&mut out, ")</span>\n</div>".as_bytes());
            proof {
                assert(out@ =~= equation_block_markup(
                    replacement@,
                    refer@,
                    head_num@,
                    equations_counter as nat,
                ));
            }
            out
        },
        SupportedRenderer::Latex | SupportedRenderer::Tectonic => {
            let mut out: Vec<u8> = Vec::new();
            extend_bytes(&mut out, "\\[".as_bytes());
            let inner = replacement.inner_str_or_intermediate();
            extend_bytes(&mut out, inner.as_slice());
            extend_bytes(&mut out, "\\]".as_bytes());
            proof {
                assert(out@ =~= math_markup(replacement@));
            }
            out
        },
    }
}

/// Formats an unnumbered equation render: an equation element for image
/// targets, display math for math-native targets.
pub fn format_equation(replacement: &Replacement, renderer: SupportedRenderer) -> (r: Vec<u8>)
    requires
        replacement.content.s@.len() < usize::MAX,
    ensures
        is_image_target(renderer) ==> r@ == equation_markup(replacement@),
        !is_image_target(renderer) ==> r@ == math_markup(replacement@),
{
    match renderer {
        SupportedRenderer::Html | SupportedRenderer::Markdown => {
            let mut out: Vec<u8> = Vec::new();
            extend_bytes(
                &mut out,
                "<div class=\"equation\"><div class=\"equation_inner\"><object data=\"assets/".as_bytes(),
            );
            push_svg(&mut out, replacement);
            extend_bytes(&mut out, "\" type=\"image/svg+xml\"></object></div></div>\n".as_bytes());
            proof {
                assert(out@ =~= equation_markup(replacement@));
            }
            out
        },
        SupportedRenderer::Latex | SupportedRenderer::Tectonic => {
            let mut out: Vec<u8> = Vec::new();
            extend_bytes(&mut out, "\\[".as_bytes());
            let inner = replacement.inner_str_or_intermediate();
            extend_bytes(&mut out, inner.as_slice());
            extend_bytes(&mut out, "\\]".as_bytes());
            proof {
                assert(out@ =~= math_markup(replacement@));
            }
            out
        },
    }
}

/// Formats an inline equation render: an inline image element for image
/// targets, inline math for math-native targets.
pub fn format_inline_equation(replacement: &Replacement, renderer: SupportedRenderer) -> (r: Vec<
    u8,
>)
    requires
        replacement.content.s@.len() < usize::MAX,
    ensures
        is_image_target(renderer) ==> r@ == inline_equation_markup(replacement@),
        !is_image_target(renderer) ==> r@ == inline_math_markup(replacement@),
{
    match renderer {
        SupportedRenderer::Html | SupportedRenderer::Markdown => {
            let mut out: Vec<u8> = Vec::new();
            extend_bytes(&mut out, "<object class=\"equation_inline\" data=\"assets/".as_bytes());
            push_svg(&mut out, replacement);
            extend_bytes(&mut out, "\" type=\"image/svg+xml\"></object>".as_bytes());
            proof {
                assert(out@ =~= inline_equation_markup(replacement@));
            }
            out
        },
        SupportedRenderer::Latex | SupportedRenderer::Tectonic => {
            let mut out: Vec<u8> = Vec::new();
            extend_bytes(&mut out, "$".as_bytes());
            let inner = replacement.inner_str_or_intermediate();
            extend_bytes(&mut out, inner.as_slice());
            extend_bytes(&mut out, "$".as_bytes());
            proof {
                assert(out@ =~= inline_math_markup(replacement@));
            }
            out
        },
    }
}

/// Formats a resolved reference as an anchor element.
pub fn format_reference(target: RefTarget, key: &[u8], label: &[u8]) -> (r: Vec<u8>)
    ensures
        r@ == reference_markup(target, key@, label@),
{
    let mut out: Vec<u8> = Vec::new();
    match target {
        RefTarget::Figure => {
            extend_bytes(&mut out, "<a class=\"fig_ref\" href='#".as_bytes());
            extend_bytes(&mut out, key);
            extend_bytes(&mut out, "'>".as_bytes());
            extend_bytes(&mut out, label);
            extend_bytes(&mut out, "</a>".as_bytes());
        },
        RefTarget::Bibliography => {
            extend_bytes(&mut out, "<a class=\"bib_ref\" href='bibliography.html#".as_bytes());
            extend_bytes(&mut out, key);
            extend_bytes(&mut out, "'>".as_bytes());
            extend_bytes(&mut out, label);
            extend_bytes(&mut out, "</a>".as_bytes());
        },
        RefTarget::Equation => {
            extend_bytes(&mut out, "<a class=\"equ_ref\" href='#".as_bytes());
            extend_bytes(&mut out, key);
            extend_bytes(&mut out, "'>Eq. (".as_bytes());
            extend_bytes(&mut out, label);
            extend_bytes(&mut out, ")</a>".as_bytes());
        },
    }
    proof {
        assert(out@ =~= reference_markup(target, key@, label@));
    }
    out
}

} // verus!
