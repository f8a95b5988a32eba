//! Font embedding decisions for SVG output.

use vstd::prelude::*;
use crate::recording::{STYLE_BOLD, STYLE_ITALIC};

verus! {

/// How a font may be embedded in an SVG, following its permissions.
#[derive(Debug, Clone, PartialEq, Eq)]
pub enum SvgFontEmbeddingPolicy {
    AllowSubsetting,
    EmbedFullFont { reason: String },
    OmitFont { reason: String },
}

pub enum PolicyView {
    AllowSubsetting,
    EmbedFullFont { reason: Seq<char> },
    OmitFont { reason: Seq<char> },
}

impl View for SvgFontEmbeddingPolicy {
    type V = PolicyView;

    open spec fn view(&self) -> PolicyView {
        match self {
            SvgFontEmbeddingPolicy::AllowSubsetting => PolicyView::AllowSubsetting,
            SvgFontEmbeddingPolicy::EmbedFullFont { reason } => PolicyView::EmbedFullFont { reason: reason@ },
            SvgFontEmbeddingPolicy::OmitFont { reason } => PolicyView::OmitFont { reason: reason@ },
        }
    }
}

/// Where the bytes of a font come from.
#[derive(Debug, Clone)]
pub enum FontSource {
    Embedded { index: usize },
    Custom { bytes: Vec<u8> },
}

/// The embedding policy a font's permission flags allow: none when only
/// bitmaps may be embedded or outline embedding is restricted, the whole
/// font when subsetting is disallowed, else a subset.
pub open spec fn spec_policy(
    family: Seq<char>,
    embedding_is_lenient: bool,
    embed_only_bitmaps: bool,
    allow_subsetting: bool,
    embedding_desc: Seq<char>,
) -> PolicyView {
    if embed_only_bitmaps {
        PolicyView::OmitFont {
            reason: "Font permissions for '"@ + family
                + "' allow only bitmap embedding; omitting embedded font data from this SVG."@,
        }
    } else if !embedding_is_lenient {
        PolicyView::OmitFont {
            reason: "Font permissions for '"@ + family + "' do not allow outline embedding ("@
                + embedding_desc + "); omitting embedded font data from this SVG."@,
        }
    } else if !allow_subsetting {
        PolicyView::EmbedFullFont {
            reason: "Font permissions for '"@ + family
                + "' disallow subsetting; embedding the full font data in this SVG."@,
        }
    } else {
        PolicyView::AllowSubsetting
    }
}

/// Decides how a font is embedded in SVG output from its permissions.
pub fn svg_embedding_policy_from_flags(
    family_name: &str,
    embedding_is_lenient: bool,
    embed_only_bitmaps: bool,
    allow_subsetting: bool,
    embedding_desc: &str,
) -> (r: SvgFontEmbeddingPolicy)
    ensures
        r@ == spec_policy(family_name@, embedding_is_lenient, embed_only_bitmaps, allow_subsetting, embedding_desc@),
{
    if embed_only_bitmaps {
        let mut m = "Font permissions for '".to_owned();
        m.append(family_name);
        m.append("' allow only bitmap embedding; omitting embedded font data from this SVG.");
        return SvgFontEmbeddingPolicy::OmitFont { reason: m };
    }
    if !embedding_is_lenient {
        let mut m = "Font permissions for '".to_owned();
        m.append(family_name);
        m.append("' do not allow outline embedding (");
        m.append(embedding_desc);
        m.append("); omitting embedded font data from this SVG.");
        return SvgFontEmbeddingPolicy::OmitFont { reason: m };
    }
    if !allow_subsetting {
        let mut m = "Font permissions for '".to_owned();
        m.append(family_name);
        m.append("' disallow subsetting; embedding the full font data in this SVG.");
        return SvgFontEmbeddingPolicy::EmbedFullFont { reason: m };
    }
    SvgFontEmbeddingPolicy::AllowSubsetting
}

/// The faces of a font family, held by index: `font_count` faces, and for
/// each style the indices to try, in priority order.
#[derive(Debug, Clone)]
pub struct FontSet {
    pub font_count: usize,
    pub regular: Vec<usize>,
    pub bold: Vec<usize>,
    pub italic: Vec<usize>,
    pub bold_italic: Vec<usize>,
}

/// Every index of `l` names one of `n` faces.
pub open spec fn indices_below(l: Seq<usize>, n: nat) -> bool {
    forall|i: int| 0 <= i < l.len() ==> (#[trigger] l[i]) < n
}

impl FontSet {
    /// Every style list names faces that exist.
    pub open spec fn wf(&self) -> bool {
        &&& indices_below(self.regular@, self.font_count as nat)
        &&& indices_below(self.bold@, self.font_count as nat)
        &&& indices_below(self.italic@, self.font_count as nat)
        &&& indices_below(self.bold_italic@, self.font_count as nat)
    }

    /// The list that the style flags ask for, the regular list where that
    /// one is empty.
    pub open spec fn spec_indices(&self, flags: u8) -> Seq<usize> {
        let want_bold = flags & STYLE_BOLD != 0;
        let want_italic = flags & STYLE_ITALIC != 0;
        let l = if want_bold && want_italic {
            self.bold_italic@
        } else if want_bold {
            self.bold@
        } else if want_italic {
            self.italic@
        } else {
            self.regular@
        };
        if l.len() == 0 { self.regular@ } else { l }
    }

    /// Returns the ordered face indices appropriate for the style flags.
    pub fn indices_for_flags(&self, flags: u8) -> (r: &Vec<usize>)
        ensures
            r@ == self.spec_indices(flags),
    {
        let want_bold = flags & STYLE_BOLD != 0;
        let want_italic = flags & STYLE_ITALIC != 0;
        let list = if want_bold && want_italic {
            &self.bold_italic
        } else if want_bold {
            &self.bold
        } else if want_italic {
            &self.italic
        } else {
            &self.regular
        };
        if list.len() == 0 { &self.regular } else { list }
    }

    /// The face chosen for a character: the first of the style's faces that
    /// has a glyph for it (`has_glyph[i]` tells whether face `i` has one),
    /// else the style's first face.
    pub open spec fn spec_select(&self, flags: u8, has_glyph: Seq<bool>) -> usize {
        let l = self.spec_indices(flags);
        match first_with_glyph(l, has_glyph) {
            Some(i) => i,
            None => l[0],
        }
    }

    /// Selects the face for a character of the given style, from which
    /// faces have a glyph for it.
    pub fn select_for_char(&self, flags: u8, has_glyph: &Vec<bool>) -> (r: usize)
        requires
            self.wf(),
            self.regular@.len() > 0,
            has_glyph@.len() == self.font_count,
        ensures
            r == self.spec_select(flags, has_glyph@),
            r < self.font_count,
    {
        let indices = self.indices_for_flags(flags);
        let ghost l = indices@;
        let mut k: usize = 0;
        assert(l.subrange(0, l.len() as int) =~= l);
        while k < indices.len()
            invariant
                l == indices@,
                l == self.spec_indices(flags),
                l.len() > 0,
                indices_below(l, self.font_count as nat),
                has_glyph@.len() == self.font_count,
                0 <= k <= l.len(),
                first_with_glyph(l, has_glyph@) == first_with_glyph(l.subrange(k as int, l.len() as int), has_glyph@),
            decreases l.len() - k,
        {
            let idx = indices[k];
            let ghost rest = l.subrange(k as int, l.len() as int);
            assert(rest[0] == idx);
            assert(rest.drop_first() =~= l.subrange(k + 1, l.len() as int));
            if has_glyph[idx] {
                return idx;
            }
            k = k + 1;
        }
        assert(l.subrange(k as int, l.len() as int) =~= Seq::<usize>::empty());
        indices[0]
    }
}

/// The first index in `l` whose face has the glyph, if any.
pub open spec fn first_with_glyph(l: Seq<usize>, has_glyph: Seq<bool>) -> Option<usize>
    decreases l.len(),
{
    if l.len() == 0 {
        None
    } else if has_glyph[l[0] as int] {
        Some(l[0])
    } else {
        first_with_glyph(l.drop_first(), has_glyph)
    }
}

} // verus!
