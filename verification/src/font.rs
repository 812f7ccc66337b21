//! A short description of a font family, made from its variants.

use vstd::prelude::*;
use vstd::string::StringExecFns;
use crate::text::{decimal, decimal_string};

verus! {

/// The style of a font.
#[derive(Clone, Copy, Debug, PartialEq, Eq, Structural)]
pub enum FontStyle {
    Normal,
    Italic,
    Oblique,
}

/// What distinguishes a font from the other fonts of its family.
#[derive(Clone, Copy, Debug, PartialEq, Eq, Structural)]
pub struct FontVariant {
    pub style: FontStyle,
    /// How heavy the font is, from 100 to 900.
    pub weight: u16,
    /// How condensed or expanded the font is, in thousandths.
    pub stretch: u16,
}

impl FontStyle {
    /// The place of the style in the order of the styles.
    pub open spec fn rank(self) -> int {
        match self {
            FontStyle::Normal => 0,
            FontStyle::Italic => 1,
            FontStyle::Oblique => 2,
        }
    }

    /// The place of the style in the order of the styles.
    pub fn place(self) -> (res: u8)
        ensures
            res == self.rank(),
    {
        match self {
            FontStyle::Normal => 0,
            FontStyle::Italic => 1,
            FontStyle::Oblique => 2,
        }
    }
}

/// Whether `a` comes before `b` or with it, where variants are ordered by
/// style, then by weight, then by stretch.
pub open spec fn not_after(a: FontVariant, b: FontVariant) -> bool {
    a.style.rank() < b.style.rank() || (a.style.rank() == b.style.rank() && (a.weight < b.weight
        || (a.weight == b.weight && a.stretch <= b.stretch)))
}

/// The smallest weight among the first `k` variants, or the greatest
/// number that a weight can be if there is none.
pub open spec fn lightest(variants: Seq<FontVariant>, k: int) -> u16
    decreases k,
{
    if k <= 0 || k > variants.len() {
        u16::MAX
    } else if variants[k - 1].weight < lightest(variants, k - 1) {
        variants[k - 1].weight
    } else {
        lightest(variants, k - 1)
    }
}

/// The variant among the first `k` that comes last in the order of the
/// variants.
pub open spec fn last_variant(variants: Seq<FontVariant>, k: int) -> FontVariant
    decreases k,
{
    if k <= 1 || k > variants.len() {
        variants[0]
    } else if not_after(last_variant(variants, k - 1), variants[k - 1]) {
        variants[k - 1]
    } else {
        last_variant(variants, k - 1)
    }
}

/// The weight that the summary gives as the upper one: that of the variant
/// that comes last in the order of the variants, or zero if there is none.
pub open spec fn upper_weight(variants: Seq<FontVariant>) -> u16 {
    if variants.len() == 0 {
        0
    } else {
        last_variant(variants, variants.len() as int).weight
    }
}

/// Whether one of the first `k` variants is italic.
pub open spec fn any_italic(variants: Seq<FontVariant>, k: int) -> bool {
    exists|i: int| 0 <= i < k && i < variants.len() && (#[trigger] variants[i]).style == FontStyle::Italic
}

/// The summary of a family of `count` variants, with the two weights that
/// it names and whether it has italics.
pub open spec fn summary_text(count: nat, lower: nat, upper: nat, italic: bool) -> Seq<char> {
    let counted = decimal(count) + " variant"@;
    let counted = if count == 1 {
        counted
    } else {
        counted + "s"@
    };
    let counted = counted + "."@;
    let weighed = if lower == upper {
        counted + " Weight "@ + decimal(lower) + "."@
    } else {
        counted + " Weights "@ + decimal(lower) + "–"@ + decimal(upper) + "."@
    };
    if italic {
        weighed + " Has italics."@
    } else {
        weighed
    }
}

/// The summary of a font family.
pub open spec fn family_summary(variants: Seq<FontVariant>) -> Seq<char> {
    summary_text(
        variants.len(),
        lightest(variants, variants.len() as int) as nat,
        upper_weight(variants) as nat,
        any_italic(variants, variants.len() as int),
    )
}

/// The variant that comes last is one of the variants, and none comes
/// after it.
pub proof fn lemma_last_variant(variants: Seq<FontVariant>, k: int)
    requires
        1 <= k <= variants.len(),
    ensures
        exists|i: int| 0 <= i < k && #[trigger] variants[i] == last_variant(variants, k),
        forall|i: int| 0 <= i < k ==> not_after(#[trigger] variants[i], last_variant(variants, k)),
    decreases k,
{
    if k > 1 {
        lemma_last_variant(variants, k - 1);
    }
}

/// The smallest weight is no greater than any weight, and it is the weight
/// of one of the variants unless there is none.
pub proof fn lemma_lightest(variants: Seq<FontVariant>, k: int)
    requires
        0 <= k <= variants.len(),
    ensures
        forall|i: int| 0 <= i < k ==> lightest(variants, k) <= (#[trigger] variants[i]).weight,
        k == 0 ==> lightest(variants, k) == u16::MAX,
        k > 0 ==> exists|i: int|
            0 <= i < k && (#[trigger] variants[i]).weight == lightest(variants, k),
    decreases k,
{
    if k > 0 {
        lemma_lightest(variants, k - 1);
    }
}

/// Whether `a` comes before `b` or with it in the order of the variants.
pub fn comes_not_after(a: &FontVariant, b: &FontVariant) -> (res: bool)
    ensures
        res == not_after(*a, *b),
{
    let left = a.style.place();
    let right = b.style.place();
    left < right || (left == right && (a.weight < b.weight || (a.weight == b.weight && a.stretch
        <= b.stretch)))
}

/// Creates a short description of a font family: how many variants it has,
/// which weights, and whether it has italics.
pub fn summarize_font_family(variants: &Vec<FontVariant>) -> (detail: String)
    ensures
        detail@ == family_summary(variants@),
{
    let count = variants.len();
    let mut has_italic = false;
    let mut min_weight: u16 = u16::MAX;
    let mut max_weight: u16 = 0;
    let mut i: usize = 0;
    if count > 0 {
        let mut last = variants[0];
        while i < count
            invariant
                count == variants.len(),
                i <= count,
                has_italic == any_italic(variants@, i as int),
                min_weight == lightest(variants@, i as int),
                last == last_variant(variants@, i as int),
            decreases count - i,
        {
            let variant = variants[i];
            if i == 0 || comes_not_after(&last, &variant) {
                last = variant;
            }
            if variant.style == FontStyle::Italic {
                has_italic = true;
            }
            if variant.weight < min_weight {
                min_weight = variant.weight;
            }
            i += 1;
        }
        max_weight = last.weight;
    }
    let mut detail = decimal_string(count as u64);
    detail.append(" variant");
    if count != 1 {
        detail.append("s");
    }
    detail.append(".");
    if min_weight == max_weight {
        detail.append(" Weight ");
        detail.append(decimal_string(min_weight as u64).as_str());
        detail.append(".");
    } else {
        detail.append(" Weights ");
        detail.append(decimal_string(min_weight as u64).as_str());
        detail.append("–");
        detail.append(decimal_string(max_weight as u64).as_str());
        detail.append(".");
    }
    if has_italic {
        detail.append(" Has italics.");
    }
    detail
}

} // verus!
