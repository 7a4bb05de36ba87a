//! HTML assembly: re-inlining extracted scripts and styles into a page,
//! and HTML minification.  The regex-driven extraction of inline assets
//! is the surrounding program's business; this module holds the pure
//! assembly that puts them back.

use vstd::prelude::*;

use crate::minify::{sp_minify_html, Minifier};
use crate::parser::ScssError;
use crate::text::{from_chars, sub_chars, to_chars};

verus! {

/// Inline assets pulled out of a page: its script bodies, its style
/// bodies, and the page text without them.
#[derive(Debug)]
pub struct ExtractedAssets {
    pub scripts: Vec<String>,
    pub styles: Vec<String>,
    pub html: String,
}

/// Strings joined with a newline between them.
pub open spec fn join_nl(items: Seq<Seq<char>>) -> Seq<char>
    decreases items.len(),
{
    if items.len() == 0 {
        Seq::empty()
    } else if items.len() == 1 {
        items[0]
    } else {
        items[0] + seq!['\n'] + join_nl(items.drop_first())
    }
}

pub proof fn lemma_join_nl_push(items: Seq<Seq<char>>, x: Seq<char>)
    requires
        items.len() >= 1,
    ensures
        join_nl(items.push(x)) == join_nl(items) + seq!['\n'] + x,
    decreases items.len(),
{
    if items.len() == 1 {
        assert(items.push(x)[0] == items[0]);
        assert(items.push(x).drop_first() =~= seq![x]);
        assert(join_nl(seq![x]) == x);
    } else {
        assert(items.push(x)[0] == items[0]);
        assert(items.push(x).drop_first() =~= items.drop_first().push(x));
        lemma_join_nl_push(items.drop_first(), x);
        assert(items[0] + seq!['\n'] + (join_nl(items.drop_first()) + seq!['\n'] + x) =~= (items[0]
            + seq!['\n'] + join_nl(items.drop_first())) + seq!['\n'] + x);
    }
}

/// Joins strings with newlines, as [`join_nl`] states.
fn join_with_nl(items: &Vec<String>) -> (r: String)
    ensures
        r@ == join_nl(crate::parser::str_views(items@)),
{
    let ghost sv = crate::parser::str_views(items@);
    let mut out = String::new();
    let m: usize = items.len();
    let mut k: usize = 0;
    proof {
        assert(out@ =~= join_nl(sv.take(0)));
    }
    while k < m
        invariant
            k <= m,
            m == items@.len(),
            sv == crate::parser::str_views(items@),
            out@ == join_nl(sv.take(k as int)),
        decreases m - k,
    {
        if k > 0 {
            out.append("\n");
            proof {
                reveal_strlit("\n");
                assert("\n"@ =~= seq!['\n']);
            }
        }
        out.append(items[k].as_str());
        proof {
            assert(sv.take(k + 1) =~= sv.take(k as int).push(sv[k as int]));
            if k == 0 {
                assert(sv.take(1) =~= seq![sv[0]]);
                assert(join_nl(seq![sv[0]]) == sv[0]);
                assert(out@ =~= join_nl(sv.take(1)));
            } else {
                lemma_join_nl_push(sv.take(k as int), sv[k as int]);
                assert(out@ =~= join_nl(sv.take(k + 1)));
            }
        }
        k += 1;
    }
    proof {
        assert(sv.take(m as int) =~= sv);
    }
    out
}

/// A page with style bodies re-inlined: when there are styles, one
/// `<style>` tag holding them joined by newlines goes in just before
/// `</head>`, or a whole head is prefixed when the page has none.
pub open spec fn sp_inline_styles(html: Seq<char>, styles: Seq<Seq<char>>) -> Seq<char> {
    if styles.len() == 0 {
        html
    } else {
        let tag = "<style>"@ + join_nl(styles) + "</style>"@;
        let h = crate::minify::find_sub(html, 0, "</head>"@);
        if h < html.len() {
            html.take(h) + tag + html.skip(h)
        } else {
            "<head>"@ + tag + "</head>"@ + html
        }
    }
}

/// A page with script bodies re-inlined: when there are scripts, one
/// `<script>` tag holding them joined by newlines goes in just before
/// `</body>`, or is appended with a closing body tag when the page has
/// none.
pub open spec fn sp_inline_scripts(html: Seq<char>, scripts: Seq<Seq<char>>) -> Seq<char> {
    if scripts.len() == 0 {
        html
    } else {
        let tag = "<script>"@ + join_nl(scripts) + "</script>"@;
        let b = crate::minify::find_sub(html, 0, "</body>"@);
        if b < html.len() {
            html.take(b) + tag + html.skip(b)
        } else {
            html + tag + "</body>"@
        }
    }
}

/// The HTML assembly and minification helpers.
pub struct HtmlProcessor;

impl HtmlProcessor {
    /// Injects extracted styles into the head and scripts before the
    /// closing body tag, as [`sp_inline_styles`] and
    /// [`sp_inline_scripts`] state.
    pub fn inline_assets(html: &str, scripts: &Vec<String>, styles: &Vec<String>) -> (r: Result<
        String,
        ScssError,
    >)
        ensures
            r matches Result::Ok(out) && out@ == sp_inline_scripts(
                sp_inline_styles(html@, crate::parser::str_views(styles@)),
                crate::parser::str_views(scripts@),
            ),
    {
        let mut cur = to_chars(html);
        if styles.len() > 0 {
            let mut tag = String::from_str("<style>");
            tag.append(join_with_nl(styles).as_str());
            tag.append("</style>");
            let h = crate::minify::find_sub_from(&cur, 0, "</head>");
            proof {
                crate::minify::lemma_find_sub_bounds(cur@, 0, "</head>"@);
            }
            if h < cur.len() {
                let mut next = sub_chars(&cur, 0, h);
                let mut mid = to_chars(tag.as_str());
                let mut tail = sub_chars(&cur, h, cur.len());
                next.append(&mut mid);
                next.append(&mut tail);
                proof {
                    assert(next@ =~= sp_inline_styles(
                        html@,
                        crate::parser::str_views(styles@),
                    ));
                }
                cur = next;
            } else {
                let mut pre = String::from_str("<head>");
                pre.append(tag.as_str());
                pre.append("</head>");
                let mut next = to_chars(pre.as_str());
                let mut tail = sub_chars(&cur, 0, cur.len());
                next.append(&mut tail);
                proof {
                    assert(cur@.subrange(0, cur@.len() as int) =~= cur@);
                    assert(next@ =~= sp_inline_styles(
                        html@,
                        crate::parser::str_views(styles@),
                    ));
                }
                cur = next;
            }
        }
        let ghost styled = sp_inline_styles(html@, crate::parser::str_views(styles@));
        proof {
            assert(cur@ == styled);
        }
        if scripts.len() > 0 {
            let mut tag = String::from_str("<script>");
            tag.append(join_with_nl(scripts).as_str());
            tag.append("</script>");
            let b = crate::minify::find_sub_from(&cur, 0, "</body>");
            proof {
                crate::minify::lemma_find_sub_bounds(cur@, 0, "</body>"@);
            }
            if b < cur.len() {
                let mut next = sub_chars(&cur, 0, b);
                let mut mid = to_chars(tag.as_str());
                let mut tail = sub_chars(&cur, b, cur.len());
                next.append(&mut mid);
                next.append(&mut tail);
                proof {
                    assert(next@ =~= sp_inline_scripts(
                        styled,
                        crate::parser::str_views(scripts@),
                    ));
                }
                cur = next;
            } else {
                let mut next = sub_chars(&cur, 0, cur.len());
                let mut mid = to_chars(tag.as_str());
                let mut end = to_chars("</body>");
                next.append(&mut mid);
                next.append(&mut end);
                proof {
                    assert(styled.subrange(0, styled.len() as int) =~= styled);
                    assert(next@ =~= sp_inline_scripts(
                        styled,
                        crate::parser::str_views(scripts@),
                    ));
                }
                cur = next;
            }
        }
        Result::Ok(from_chars(&cur))
    }

    /// Minifies HTML, as [`sp_minify_html`] states.
    pub fn minify(html: &str) -> (r: Result<String, ScssError>)
        ensures
            r matches Result::Ok(m) && m@ == sp_minify_html(html@),
    {
        Minifier::minify_html(html)
    }
}

} // verus!
