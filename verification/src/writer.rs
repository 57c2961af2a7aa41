use vstd::prelude::*;

use crate::chapter::Book;
use crate::chapter::ChapterView;
use crate::chapter::DecryptedChapter;
use crate::sorting::views_of;

verus! {

/// A body with every line break doubled, the convention that makes
/// paragraph spacing visible in plain-text readers.
pub open spec fn doubled(s: Seq<char>) -> Seq<char>
    decreases s.len(),
{
    if s.len() == 0 {
        Seq::empty()
    } else if s[0] == '\n' {
        seq!['\n', '\n'] + doubled(s.drop_first())
    } else {
        seq![s[0]] + doubled(s.drop_first())
    }
}

proof fn lemma_doubled_append(a: Seq<char>, b: Seq<char>)
    ensures
        doubled(a + b) == doubled(a) + doubled(b),
    decreases a.len(),
{
    if a.len() == 0 {
        assert(a + b =~= b);
        assert(doubled(a) + doubled(b) =~= doubled(b));
    } else {
        assert((a + b)[0] == a[0]);
        assert((a + b).drop_first() =~= a.drop_first() + b);
        lemma_doubled_append(a.drop_first(), b);
        if a[0] == '\n' {
            assert(seq!['\n', '\n'] + (doubled(a.drop_first()) + doubled(b)) =~= (seq!['\n', '\n']
                + doubled(a.drop_first())) + doubled(b));
        } else {
            assert(seq![a[0]] + (doubled(a.drop_first()) + doubled(b)) =~= (seq![a[0]] + doubled(
                a.drop_first(),
            )) + doubled(b));
        }
    }
}

/// One chapter's block in the artifact: the display name, a blank line,
/// the body with line breaks doubled, then a blank line.
pub open spec fn rendered_chapter(name: Seq<char>, body: Seq<char>) -> Seq<char> {
    name + seq!['\n', '\n'] + doubled(body) + seq!['\n', '\n']
}

/// All chapter blocks, in the order given.
pub open spec fn rendered_chapters(chs: Seq<ChapterView>) -> Seq<char>
    decreases chs.len(),
{
    if chs.len() == 0 {
        Seq::empty()
    } else {
        rendered_chapter(chs[0].chapter_name, chs[0].body) + rendered_chapters(chs.drop_first())
    }
}

proof fn lemma_rendered_push(chs: Seq<ChapterView>, x: ChapterView)
    ensures
        rendered_chapters(chs.push(x)) == rendered_chapters(chs) + rendered_chapter(
            x.chapter_name,
            x.body,
        ),
    decreases chs.len(),
{
    if chs.len() == 0 {
        assert(chs.push(x)[0] == x);
        assert(chs.push(x).drop_first() =~= Seq::<ChapterView>::empty());
        assert(rendered_chapters(chs.push(x)) =~= rendered_chapter(x.chapter_name, x.body)
            + rendered_chapters(Seq::<ChapterView>::empty()));
        assert(rendered_chapters(chs) + rendered_chapter(x.chapter_name, x.body)
            =~= rendered_chapter(x.chapter_name, x.body));
    } else {
        assert(chs.push(x)[0] == chs[0]);
        assert(chs.push(x).drop_first() =~= chs.drop_first().push(x));
        lemma_rendered_push(chs.drop_first(), x);
        assert(rendered_chapter(chs[0].chapter_name, chs[0].body) + (rendered_chapters(
            chs.drop_first(),
        ) + rendered_chapter(x.chapter_name, x.body)) =~= (rendered_chapter(
            chs[0].chapter_name,
            chs[0].body,
        ) + rendered_chapters(chs.drop_first())) + rendered_chapter(x.chapter_name, x.body));
    }
}

/// The whole artifact: the book's name, its author, a blank line, then
/// every chapter block in the order given.
pub open spec fn rendered_book(
    book_name: Seq<char>,
    book_author: Seq<char>,
    chs: Seq<ChapterView>,
) -> Seq<char> {
    book_name + seq!['\n'] + book_author + seq!['\n', '\n'] + rendered_chapters(chs)
}

/// Expands every line break of `s` into a double line break.
pub fn double_line_breaks(s: &str) -> (r: String)
    ensures
        r@ == doubled(s@),
{
    let n = s.unicode_len();
    let mut out = String::new();
    let mut i: usize = 0;
    while i < n
        invariant
            i <= n,
            n == s@.len(),
            out@ == doubled(s@.take(i as int)),
        decreases n - i,
    {
        let c = s.get_char(i);
        let piece = s.substring_char(i, i + 1);
        out.append(piece);
        if c == '\n' {
            out.append("\n");
        }
        proof {
            reveal_strlit("\n");
            let ii = i as int;
            assert(s@.take(ii + 1) =~= s@.take(ii) + seq![s@[ii]]);
            lemma_doubled_append(s@.take(ii), seq![s@[ii]]);
            assert(piece@ =~= seq![s@[ii]]);
            assert(seq![s@[ii]].drop_first() =~= Seq::<char>::empty());
            assert(doubled(Seq::<char>::empty()) =~= Seq::<char>::empty());
            if c == '\n' {
                assert(doubled(seq![s@[ii]]) =~= seq!['\n', '\n']);
                assert(out@ =~= doubled(s@.take(ii + 1)));
            } else {
                assert(doubled(seq![s@[ii]]) =~= seq![s@[ii]]);
                assert(out@ =~= doubled(s@.take(ii + 1)));
            }
        }
        i = i + 1;
    }
    proof {
        assert(s@.take(n as int) =~= s@);
    }
    out
}

/// Serializes the ordered chapters alone, without front matter: the
/// block-by-block body of an artifact, one block per chapter in the
/// order given.
pub fn render_chapters(chapters: &Vec<DecryptedChapter>) -> (r: String)
    ensures
        r@ == rendered_chapters(views_of(chapters@)),
{
    let mut out = String::new();
    let ghost cvs = views_of(chapters@);
    proof {
        assert(rendered_chapters(cvs.take(0)) =~= Seq::<char>::empty());
    }
    let n = chapters.len();
    let mut i: usize = 0;
    while i < n
        invariant
            i <= n,
            n == chapters@.len(),
            cvs == views_of(chapters@),
            out@ == rendered_chapters(cvs.take(i as int)),
        decreases n - i,
    {
        let ch = &chapters[i];
        out.append(ch.chapter_name.as_str());
        out.append("\n\n");
        let body2 = double_line_breaks(ch.body.as_str());
        out.append(body2.as_str());
        out.append("\n\n");
        proof {
            reveal_strlit("\n\n");
            let ii = i as int;
            assert(ch@ == cvs[ii]);
            assert(cvs.take(ii + 1) =~= cvs.take(ii).push(cvs[ii]));
            lemma_rendered_push(cvs.take(ii), cvs[ii]);
            assert(out@ =~= rendered_chapters(cvs.take(ii)) + rendered_chapter(
                cvs[ii].chapter_name,
                cvs[ii].body,
            ));
            assert(out@ =~= rendered_chapters(cvs.take(ii + 1)));
        }
        i = i + 1;
    }
    proof {
        assert(cvs.take(n as int) =~= cvs);
    }
    out
}

/// Serializes the ordered chapters with the book's front matter into the
/// final plain-text artifact. Rendering the same inputs again yields the
/// identical text: the result is a pure function of its arguments.
pub fn render_book(book: &Book, chapters: &Vec<DecryptedChapter>) -> (r: String)
    ensures
        r@ == rendered_book(book.book_name@, book.book_author@, views_of(chapters@)),
{
    let mut out = String::new();
    out.append(book.book_name.as_str());
    out.append("\n");
    out.append(book.book_author.as_str());
    out.append("\n\n");
    proof {
        reveal_strlit("\n");
        reveal_strlit("\n\n");
        assert(out@ =~= book.book_name@ + seq!['\n'] + book.book_author@ + seq!['\n', '\n']);
    }
    let blocks = render_chapters(chapters);
    out.append(blocks.as_str());
    proof {
        assert(out@ =~= rendered_book(
            book.book_name@,
            book.book_author@,
            views_of(chapters@),
        ));
    }
    out
}

} // verus!
