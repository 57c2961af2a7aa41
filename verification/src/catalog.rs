use vstd::prelude::*;

use crate::chapter::Book;

verus! {

/// The views of a list of names, element by element.
pub open spec fn name_views(s: Seq<String>) -> Seq<Seq<char>> {
    Seq::new(s.len(), |i: int| s[i]@)
}

/// A directory entry that cannot name a downloaded book: hidden entries
/// carry a leading dot.
pub open spec fn is_hidden(name: Seq<char>) -> bool {
    name.len() > 0 && name[0] == '.'
}

/// Keeps the entries that can name a book.
pub open spec fn visible_pred() -> spec_fn(Seq<char>) -> bool {
    |n: Seq<char>| !is_hidden(n)
}

/// Whether some name in the list reads exactly as `id`.
pub open spec fn contains_name(names: Seq<Seq<char>>, id: Seq<char>) -> bool {
    exists|i: int| 0 <= i < names.len() && names[i] == id
}

/// Keeps the books whose identifier one of the given names carries.
pub open spec fn downloaded_pred(names: Seq<Seq<char>>) -> spec_fn(Book) -> bool {
    |b: Book| contains_name(names, b.book_id@)
}

/// The books a downloaded entry exists for, in catalogue order.
pub open spec fn downloaded_books(books: Seq<Book>, names: Seq<Seq<char>>) -> Seq<Book> {
    books.filter(downloaded_pred(names))
}

/// A temporary entry of the cache's own writer, which a directory sweep
/// skips: its name ends in "-tmp.txt".
pub open spec fn is_temp_name(name: Seq<char>) -> bool {
    name.len() >= 8 && name.skip(name.len() - 8) == "-tmp.txt"@
}

/// Tells whether a cache entry is such a temporary.
pub fn is_temp_entry(name: &str) -> (r: bool)
    ensures
        r == is_temp_name(name@),
{
    proof {
        reveal_strlit("-tmp.txt");
    }
    let n = name.unicode_len();
    if n < 8 {
        return false;
    }
    let suffix = name.substring_char(n - 8, n);
    let pat = "-tmp.txt";
    let mut j: usize = 0;
    while j < 8
        invariant
            j <= 8,
            n >= 8,
            n == name@.len(),
            suffix@ == name@.skip(n as int - 8),
            pat@ == "-tmp.txt"@,
            pat@.len() == 8,
            forall|m: int| 0 <= m < j ==> suffix@[m] == pat@[m],
        decreases 8 - j,
    {
        if suffix.get_char(j) != pat.get_char(j) {
            assert(suffix@ != pat@);
            return false;
        }
        j = j + 1;
    }
    assert(suffix@ =~= pat@);
    true
}

/// Drops the directory entries that cannot name a book: hidden names
/// with a leading dot, such as a file manager's metadata droppings.
pub fn filter_entry_names(names: Vec<String>) -> (r: Vec<String>)
    ensures
        name_views(r@) == name_views(names@).filter(visible_pred()),
{
    let ghost orig = name_views(names@);
    let mut rest = names;
    let mut out: Vec<String> = Vec::new();
    while rest.len() > 0
        invariant
            rest@.len() <= orig.len(),
            name_views(rest@) == orig.skip((orig.len() - rest@.len()) as int),
            name_views(out@) == orig.take((orig.len() - rest@.len()) as int).filter(
                visible_pred(),
            ),
        decreases rest@.len(),
    {
        let ghost k = orig.len() - rest@.len();
        let ghost pre = rest@;
        let s = rest.remove(0);
        proof {
            assert(s@ == name_views(pre)[0]);
            assert(s@ == orig[k as int]);
            assert forall|m: int|
                0 <= m < rest@.len() implies name_views(rest@)[m] == orig.skip(k as int + 1)[m] by {
                assert(rest@[m] == pre[m + 1]);
                assert(name_views(pre)[m + 1] == orig.skip(k as int)[m + 1]);
            }
            assert(name_views(rest@) =~= orig.skip(k as int + 1));
            assert(orig.take(k as int + 1) =~= orig.take(k as int).push(orig[k as int]));
            orig.take(k as int).lemma_filter_push(orig[k as int], visible_pred());
        }
        let hidden = s.as_str().unicode_len() > 0 && s.as_str().get_char(0) == '.';
        if !hidden {
            let ghost preout = out@;
            out.push(s);
            proof {
                assert(name_views(out@) =~= name_views(preout).push(s@));
            }
        }
    }
    proof {
        assert(orig.take(orig.len() as int) =~= orig);
        assert(name_views(rest@).len() == 0);
    }
    out
}

fn contains_str(names: &Vec<String>, id: &String) -> (r: bool)
    ensures
        r == contains_name(name_views(names@), id@),
{
    let n = names.len();
    let mut i: usize = 0;
    while i < n
        invariant
            i <= n,
            n == names@.len(),
            forall|m: int| 0 <= m < i ==> name_views(names@)[m] != id@,
        decreases n - i,
    {
        if names[i].eq(id) {
            assert(name_views(names@)[i as int] == id@);
            return true;
        }
        i = i + 1;
    }
    false
}

/// Joins the metadata catalogue against the downloaded entries: keeps,
/// in catalogue order, exactly the books whose identifier appears among
/// the entry names. Entries without a catalogue row fall away silently.
pub fn select_downloaded_books(all_books: Vec<Book>, downloaded: &Vec<String>) -> (r: Vec<Book>)
    ensures
        r@ == downloaded_books(all_books@, name_views(downloaded@)),
{
    let ghost orig = all_books@;
    let ghost nv = name_views(downloaded@);
    let mut rest = all_books;
    let mut out: Vec<Book> = Vec::new();
    while rest.len() > 0
        invariant
            nv == name_views(downloaded@),
            rest@.len() <= orig.len(),
            rest@ == orig.skip((orig.len() - rest@.len()) as int),
            out@ == orig.take((orig.len() - rest@.len()) as int).filter(downloaded_pred(nv)),
        decreases rest@.len(),
    {
        let ghost k = orig.len() - rest@.len();
        let b = rest.remove(0);
        proof {
            assert(b == orig[k as int]);
            assert(rest@ =~= orig.skip(k as int + 1));
            assert(orig.take(k as int + 1) =~= orig.take(k as int).push(orig[k as int]));
            orig.take(k as int).lemma_filter_push(orig[k as int], downloaded_pred(nv));
        }
        let keep = contains_str(downloaded, &b.book_id);
        if keep {
            out.push(b);
        }
    }
    proof {
        assert(orig.take(orig.len() as int) =~= orig);
    }
    out
}

} // verus!
