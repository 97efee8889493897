//! The score badge: a shields.io-style SVG.
use vstd::prelude::*;

use crate::text::{chars_of, contains, dec, decimal, occurs_at};

verus! {

/// The badge's label.
pub open spec fn badge_label() -> Seq<char> {
    "kimi"@
}

/// The badge's value text: `N/100`.
pub open spec fn badge_value(score: u32) -> Seq<char> {
    dec(score as nat) + "/100"@
}

/// Background and text colour of the value, by score band:
/// 80–100 green, 60–79 light green, 40–59 yellow, 20–39 orange, anything else red.
pub open spec fn badge_colors(score: u32) -> (Seq<char>, Seq<char>) {
    if 80 <= score <= 100 {
        ("#4CAF50"@, "#ffffff"@)
    } else if 60 <= score <= 79 {
        ("#8BC34A"@, "#ffffff"@)
    } else if 40 <= score <= 59 {
        ("#FFC107"@, "#000000"@)
    } else if 20 <= score <= 39 {
        ("#FF9800"@, "#ffffff"@)
    } else {
        ("#F44336"@, "#ffffff"@)
    }
}

/// Width of the label part: 7 pixels a character plus 12 of padding.
pub open spec fn label_width() -> nat {
    badge_label().len() * 7 + 12
}

/// Width of the value part.
pub open spec fn value_width(score: u32) -> nat {
    badge_value(score).len() * 7 + 12
}

pub open spec fn total_width(score: u32) -> nat {
    label_width() + value_width(score)
}

pub open spec fn label_center() -> nat {
    label_width() / 2
}

pub open spec fn value_center(score: u32) -> nat {
    label_width() + value_width(score) / 2
}

/// The whole badge for `score`.
pub open spec fn badge_svg(score: u32) -> Seq<char> {
    r##"<svg xmlns="http://www.w3.org/2000/svg" xmlns:xlink="http://www.w3.org/1999/xlink" width=""##@
        + dec(total_width(score))
        + r##"" height="20" role="img" aria-label=""##@
        + badge_label()
        + r##": "##@
        + badge_value(score)
        + r##"">
  <title>"##@
        + badge_label()
        + r##": "##@
        + badge_value(score)
        + r##"</title>
  <linearGradient id="s" x2="0" y2="100%">
    <stop offset="0" stop-color="#bbb" stop-opacity=".1"/>
    <stop offset="1" stop-opacity=".1"/>
  </linearGradient>
  <clipPath id="r">
    <rect width=""##@
        + dec(total_width(score))
        + r##"" height="20" rx="3" fill="#ffffff"/>
  </clipPath>
  <g clip-path="url(#r)">
    <rect width=""##@
        + dec(label_width())
        + r##"" height="20" fill="#555"/>
    <rect x=""##@
        + dec(label_width())
        + r##"" width=""##@
        + dec(value_width(score))
        + r##"" height="20" fill=""##@
        + badge_colors(score).0
        + r##""/>
    <rect width=""##@
        + dec(total_width(score))
        + r##"" height="20" fill="url(#s)"/>
  </g>
  <g fill=""##@
        + badge_colors(score).1
        + r##"" text-anchor="middle" font-family="Verdana,Geneva,DejaVu Sans,sans serif" font-size="11">
    <text x=""##@
        + dec(label_center())
        + r##"" y="14" fill="#010101" fill-opacity=".3">"##@
        + badge_label()
        + r##"</text>
    <text x=""##@
        + dec(label_center())
        + r##"" y="13">"##@
        + badge_label()
        + r##"</text>
    <text x=""##@
        + dec(value_center(score))
        + r##"" y="14" fill="#010101" fill-opacity=".3">"##@
        + badge_value(score)
        + r##"</text>
    <text x=""##@
        + dec(value_center(score))
        + r##"" y="13">"##@
        + badge_value(score)
        + r##"</text>
  </g>
</svg>"##@
}

pub open spec fn pow10(k: nat) -> nat
    decreases k,
{
    if k == 0 {
        1
    } else {
        10 * pow10((k - 1) as nat)
    }
}

/// A number below `10^k` has at most `k` digits.
pub proof fn lemma_dec_len(n: nat, k: nat)
    requires
        k >= 1,
        n < pow10(k),
    ensures
        dec(n).len() <= k,
    decreases k,
{
    if n >= 10 {
        if k == 1 {
            assert(pow10(1) == 10) by {
                reveal_with_fuel(pow10, 2);
            }
        } else {
            let p = pow10((k - 1) as nat);
            assert(n / 10 < p) by (nonlinear_arith)
                requires
                    n < 10 * p,
            ;
            lemma_dec_len(n / 10, (k - 1) as nat);
        }
    }
}

/// The SVG badge for a contract score. A score above 100 is drawn red, as
/// below 20.
pub fn generate_svg(score: u32) -> (svg: String)
    ensures
        svg@ == badge_svg(score),
{
    let label = "kimi";
    let mut value = decimal(score as u64);
    value.append("/100");
    let (color, text_color) = if 80 <= score && score <= 100 {
        ("#4CAF50", "#ffffff")
    } else if 60 <= score && score <= 79 {
        ("#8BC34A", "#ffffff")
    } else if 40 <= score && score <= 59 {
        ("#FFC107", "#000000")
    } else if 20 <= score && score <= 39 {
        ("#FF9800", "#ffffff")
    } else {
        ("#F44336", "#ffffff")
    };
    let label_len = chars_of(label).len();
    let value_len = chars_of(value.as_str()).len();
    proof {
        reveal_strlit("kimi");
        reveal_strlit("/100");
        assert(pow10(10) == 10000000000) by {
            reveal_with_fuel(pow10, 11);
        }
        lemma_dec_len(score as nat, 10);
    }
    let label_width = label_len * 7 + 12;
    let value_width = value_len * 7 + 12;
    let total_width = label_width + value_width;
    let label_center = label_width / 2;
    let value_center = label_width + value_width / 2;
    let total_s = decimal(total_width as u64);
    let lw_s = decimal(label_width as u64);
    let vw_s = decimal(value_width as u64);
    let lc_s = decimal(label_center as u64);
    let vc_s = decimal(value_center as u64);
    let mut svg = String::new();
    svg.append(r##"<svg xmlns="http://www.w3.org/2000/svg" xmlns:xlink="http://www.w3.org/1999/xlink" width=""##);
    svg.append(total_s.as_str());
    svg.append(r##"" height="20" role="img" aria-label=""##);
    svg.append(label);
    svg.append(r##": "##);
    svg.append(value.as_str());
    svg.append(r##"">
  <title>"##);
    svg.append(label);
    svg.append(r##": "##);
    svg.append(value.as_str());
    svg.append(r##"</title>
  <linearGradient id="s" x2="0" y2="100%">
    <stop offset="0" stop-color="#bbb" stop-opacity=".1"/>
    <stop offset="1" stop-opacity=".1"/>
  </linearGradient>
  <clipPath id="r">
    <rect width=""##);
    svg.append(total_s.as_str());
    svg.append(r##"" height="20" rx="3" fill="#ffffff"/>
  </clipPath>
  <g clip-path="url(#r)">
    <rect width=""##);
    svg.append(lw_s.as_str());
    svg.append(r##"" height="20" fill="#555"/>
    <rect x=""##);
    svg.append(lw_s.as_str());
    svg.append(r##"" width=""##);
    svg.append(vw_s.as_str());
    svg.append(r##"" height="20" fill=""##);
    svg.append(color);
    svg.append(r##""/>
    <rect width=""##);
    svg.append(total_s.as_str());
    svg.append(r##"" height="20" fill="url(#s)"/>
  </g>
  <g fill=""##);
    svg.append(text_color);
    svg.append(r##"" text-anchor="middle" font-family="Verdana,Geneva,DejaVu Sans,sans serif" font-size="11">
    <text x=""##);
    svg.append(lc_s.as_str());
    svg.append(r##"" y="14" fill="#010101" fill-opacity=".3">"##);
    svg.append(label);
    svg.append(r##"</text>
    <text x=""##);
    svg.append(lc_s.as_str());
    svg.append(r##"" y="13">"##);
    svg.append(label);
    svg.append(r##"</text>
    <text x=""##);
    svg.append(vc_s.as_str());
    svg.append(r##"" y="14" fill="#010101" fill-opacity=".3">"##);
    svg.append(value.as_str());
    svg.append(r##"</text>
    <text x=""##);
    svg.append(vc_s.as_str());
    svg.append(r##"" y="13">"##);
    svg.append(value.as_str());
    svg.append(r##"</text>
  </g>
</svg>"##);
    svg
}

proof fn lemma_occurs_extend(x: Seq<char>, y: Seq<char>, p: Seq<char>, k: int)
    requires
        occurs_at(x, p, k),
    ensures
        occurs_at(x + y, p, k),
{
    assert((x + y).subrange(k, k + p.len()) =~= x.subrange(k, k + p.len()));
}

/// Whatever the score, the badge shows it as `N/100`, with the colour of its band.
pub proof fn law_badge_shows_score(score: u32)
    ensures
        contains(badge_svg(score), badge_value(score)),
        contains(badge_svg(score), badge_colors(score).0),
{
    {
        let pre = r##"<svg xmlns="http://www.w3.org/2000/svg" xmlns:xlink="http://www.w3.org/1999/xlink" width=""##@ + dec(total_width(score)) + r##"" height="20" role="img" aria-label=""##@ + badge_label() + r##": "##@;
        let t = pre + badge_value(score);
        assert(t.subrange(pre.len() as int, (pre.len() + (badge_value(score)).len()) as int) =~= badge_value(score));
        let k = pre.len() as int;
        assert(occurs_at(t, badge_value(score), k));
        lemma_occurs_extend(t, r##"">
  <title>"##@, badge_value(score), k);
        let t = t + r##"">
  <title>"##@;
        lemma_occurs_extend(t, badge_label(), badge_value(score), k);
        let t = t + badge_label();
        lemma_occurs_extend(t, r##": "##@, badge_value(score), k);
        let t = t + r##": "##@;
        lemma_occurs_extend(t, badge_value(score), badge_value(score), k);
        let t = t + badge_value(score);
        lemma_occurs_extend(t, r##"</title>
  <linearGradient id="s" x2="0" y2="100%">
    <stop offset="0" stop-color="#bbb" stop-opacity=".1"/>
    <stop offset="1" stop-opacity=".1"/>
  </linearGradient>
  <clipPath id="r">
    <rect width=""##@, badge_value(score), k);
        let t = t + r##"</title>
  <linearGradient id="s" x2="0" y2="100%">
    <stop offset="0" stop-color="#bbb" stop-opacity=".1"/>
    <stop offset="1" stop-opacity=".1"/>
  </linearGradient>
  <clipPath id="r">
    <rect width=""##@;
        lemma_occurs_extend(t, dec(total_width(score)), badge_value(score), k);
        let t = t + dec(total_width(score));
        lemma_occurs_extend(t, r##"" height="20" rx="3" fill="#ffffff"/>
  </clipPath>
  <g clip-path="url(#r)">
    <rect width=""##@, badge_value(score), k);
        let t = t + r##"" height="20" rx="3" fill="#ffffff"/>
  </clipPath>
  <g clip-path="url(#r)">
    <rect width=""##@;
        lemma_occurs_extend(t, dec(label_width()), badge_value(score), k);
        let t = t + dec(label_width());
        lemma_occurs_extend(t, r##"" height="20" fill="#555"/>
    <rect x=""##@, badge_value(score), k);
        let t = t + r##"" height="20" fill="#555"/>
    <rect x=""##@;
        lemma_occurs_extend(t, dec(label_width()), badge_value(score), k);
        let t = t + dec(label_width());
        lemma_occurs_extend(t, r##"" width=""##@, badge_value(score), k);
        let t = t + r##"" width=""##@;
        lemma_occurs_extend(t, dec(value_width(score)), badge_value(score), k);
        let t = t + dec(value_width(score));
        lemma_occurs_extend(t, r##"" height="20" fill=""##@, badge_value(score), k);
        let t = t + r##"" height="20" fill=""##@;
        lemma_occurs_extend(t, badge_colors(score).0, badge_value(score), k);
        let t = t + badge_colors(score).0;
        lemma_occurs_extend(t, r##""/>
    <rect width=""##@, badge_value(score), k);
        let t = t + r##""/>
    <rect width=""##@;
        lemma_occurs_extend(t, dec(total_width(score)), badge_value(score), k);
        let t = t + dec(total_width(score));
        lemma_occurs_extend(t, r##"" height="20" fill="url(#s)"/>
  </g>
  <g fill=""##@, badge_value(score), k);
        let t = t + r##"" height="20" fill="url(#s)"/>
  </g>
  <g fill=""##@;
        lemma_occurs_extend(t, badge_colors(score).1, badge_value(score), k);
        let t = t + badge_colors(score).1;
        lemma_occurs_extend(t, r##"" text-anchor="middle" font-family="Verdana,Geneva,DejaVu Sans,sans serif" font-size="11">
    <text x=""##@, badge_value(score), k);
        let t = t + r##"" text-anchor="middle" font-family="Verdana,Geneva,DejaVu Sans,sans serif" font-size="11">
    <text x=""##@;
        lemma_occurs_extend(t, dec(label_center()), badge_value(score), k);
        let t = t + dec(label_center());
        lemma_occurs_extend(t, r##"" y="14" fill="#010101" fill-opacity=".3">"##@, badge_value(score), k);
        let t = t + r##"" y="14" fill="#010101" fill-opacity=".3">"##@;
        lemma_occurs_extend(t, badge_label(), badge_value(score), k);
        let t = t + badge_label();
        lemma_occurs_extend(t, r##"</text>
    <text x=""##@, badge_value(score), k);
        let t = t + r##"</text>
    <text x=""##@;
        lemma_occurs_extend(t, dec(label_center()), badge_value(score), k);
        let t = t + dec(label_center());
        lemma_occurs_extend(t, r##"" y="13">"##@, badge_value(score), k);
        let t = t + r##"" y="13">"##@;
        lemma_occurs_extend(t, badge_label(), badge_value(score), k);
        let t = t + badge_label();
        lemma_occurs_extend(t, r##"</text>
    <text x=""##@, badge_value(score), k);
        let t = t + r##"</text>
    <text x=""##@;
        lemma_occurs_extend(t, dec(value_center(score)), badge_value(score), k);
        let t = t + dec(value_center(score));
        lemma_occurs_extend(t, r##"" y="14" fill="#010101" fill-opacity=".3">"##@, badge_value(score), k);
        let t = t + r##"" y="14" fill="#010101" fill-opacity=".3">"##@;
        lemma_occurs_extend(t, badge_value(score), badge_value(score), k);
        let t = t + badge_value(score);
        lemma_occurs_extend(t, r##"</text>
    <text x=""##@, badge_value(score), k);
        let t = t + r##"</text>
    <text x=""##@;
        lemma_occurs_extend(t, dec(value_center(score)), badge_value(score), k);
        let t = t + dec(value_center(score));
        lemma_occurs_extend(t, r##"" y="13">"##@, badge_value(score), k);
        let t = t + r##"" y="13">"##@;
        lemma_occurs_extend(t, badge_value(score), badge_value(score), k);
        let t = t + badge_value(score);
        lemma_occurs_extend(t, r##"</text>
  </g>
</svg>"##@, badge_value(score), k);
        let t = t + r##"</text>
  </g>
</svg>"##@;
        assert(t == badge_svg(score));
    }
    {
        let pre = r##"<svg xmlns="http://www.w3.org/2000/svg" xmlns:xlink="http://www.w3.org/1999/xlink" width=""##@ + dec(total_width(score)) + r##"" height="20" role="img" aria-label=""##@ + badge_label() + r##": "##@ + badge_value(score) + r##"">
  <title>"##@ + badge_label() + r##": "##@ + badge_value(score) + r##"</title>
  <linearGradient id="s" x2="0" y2="100%">
    <stop offset="0" stop-color="#bbb" stop-opacity=".1"/>
    <stop offset="1" stop-opacity=".1"/>
  </linearGradient>
  <clipPath id="r">
    <rect width=""##@ + dec(total_width(score)) + r##"" height="20" rx="3" fill="#ffffff"/>
  </clipPath>
  <g clip-path="url(#r)">
    <rect width=""##@ + dec(label_width()) + r##"" height="20" fill="#555"/>
    <rect x=""##@ + dec(label_width()) + r##"" width=""##@ + dec(value_width(score)) + r##"" height="20" fill=""##@;
        let t = pre + badge_colors(score).0;
        assert(t.subrange(pre.len() as int, (pre.len() + (badge_colors(score).0).len()) as int) =~= badge_colors(score).0);
        let k = pre.len() as int;
        assert(occurs_at(t, badge_colors(score).0, k));
        lemma_occurs_extend(t, r##""/>
    <rect width=""##@, badge_colors(score).0, k);
        let t = t + r##""/>
    <rect width=""##@;
        lemma_occurs_extend(t, dec(total_width(score)), badge_colors(score).0, k);
        let t = t + dec(total_width(score));
        lemma_occurs_extend(t, r##"" height="20" fill="url(#s)"/>
  </g>
  <g fill=""##@, badge_colors(score).0, k);
        let t = t + r##"" height="20" fill="url(#s)"/>
  </g>
  <g fill=""##@;
        lemma_occurs_extend(t, badge_colors(score).1, badge_colors(score).0, k);
        let t = t + badge_colors(score).1;
        lemma_occurs_extend(t, r##"" text-anchor="middle" font-family="Verdana,Geneva,DejaVu Sans,sans serif" font-size="11">
    <text x=""##@, badge_colors(score).0, k);
        let t = t + r##"" text-anchor="middle" font-family="Verdana,Geneva,DejaVu Sans,sans serif" font-size="11">
    <text x=""##@;
        lemma_occurs_extend(t, dec(label_center()), badge_colors(score).0, k);
        let t = t + dec(label_center());
        lemma_occurs_extend(t, r##"" y="14" fill="#010101" fill-opacity=".3">"##@, badge_colors(score).0, k);
        let t = t + r##"" y="14" fill="#010101" fill-opacity=".3">"##@;
        lemma_occurs_extend(t, badge_label(), badge_colors(score).0, k);
        let t = t + badge_label();
        lemma_occurs_extend(t, r##"</text>
    <text x=""##@, badge_colors(score).0, k);
        let t = t + r##"</text>
    <text x=""##@;
        lemma_occurs_extend(t, dec(label_center()), badge_colors(score).0, k);
        let t = t + dec(label_center());
        lemma_occurs_extend(t, r##"" y="13">"##@, badge_colors(score).0, k);
        let t = t + r##"" y="13">"##@;
        lemma_occurs_extend(t, badge_label(), badge_colors(score).0, k);
        let t = t + badge_label();
        lemma_occurs_extend(t, r##"</text>
    <text x=""##@, badge_colors(score).0, k);
        let t = t + r##"</text>
    <text x=""##@;
        lemma_occurs_extend(t, dec(value_center(score)), badge_colors(score).0, k);
        let t = t + dec(value_center(score));
        lemma_occurs_extend(t, r##"" y="14" fill="#010101" fill-opacity=".3">"##@, badge_colors(score).0, k);
        let t = t + r##"" y="14" fill="#010101" fill-opacity=".3">"##@;
        lemma_occurs_extend(t, badge_value(score), badge_colors(score).0, k);
        let t = t + badge_value(score);
        lemma_occurs_extend(t, r##"</text>
    <text x=""##@, badge_colors(score).0, k);
        let t = t + r##"</text>
    <text x=""##@;
        lemma_occurs_extend(t, dec(value_center(score)), badge_colors(score).0, k);
        let t = t + dec(value_center(score));
        lemma_occurs_extend(t, r##"" y="13">"##@, badge_colors(score).0, k);
        let t = t + r##"" y="13">"##@;
        lemma_occurs_extend(t, badge_value(score), badge_colors(score).0, k);
        let t = t + badge_value(score);
        lemma_occurs_extend(t, r##"</text>
  </g>
</svg>"##@, badge_colors(score).0, k);
        let t = t + r##"</text>
  </g>
</svg>"##@;
        assert(t == badge_svg(score));
    }
}

} // verus!
