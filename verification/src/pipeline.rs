use vstd::prelude::*;

use rayon::iter::IntoParallelIterator;
use rayon::iter::ParallelIterator;

use crate::chapter::chapter_body;
use crate::chapter::decrypt_chapter;
use crate::chapter::Chapter;
use crate::chapter::ChapterView;
use crate::chapter::CipherContext;
use crate::chapter::DecryptedChapter;
use crate::errors::DecryptError;
use crate::sorting::sort_chapters;
use crate::sorting::stable_sort;
use crate::sorting::views_of;

verus! {

/// What one chapter task yields at the mathematical level: the
/// descriptor's order key and display name joined with the decrypted
/// body, or that chapter's own failure.
pub open spec fn entry_result(d: Chapter, blob: Seq<char>, key: Seq<u8>, iv: Seq<u8>) -> Result<
    ChapterView,
    DecryptError,
> {
    match chapter_body(blob, key, iv) {
        Ok(t) => Ok(
            ChapterView { sequence_index: d.sequence_index, chapter_name: d.chapter_name@, body: t },
        ),
        Err(e) => Err(e),
    }
}

/// The view of one task's runtime result.
pub open spec fn result_view(r: Result<DecryptedChapter, DecryptError>) -> Result<
    ChapterView,
    DecryptError,
> {
    match r {
        Ok(c) => Ok(c@),
        Err(e) => Err(e),
    }
}

/// The per-chapter results of a whole run, in metadata order.
pub open spec fn run_results(items: Seq<(Chapter, String)>, key: Seq<u8>, iv: Seq<u8>) -> Seq<
    Result<ChapterView, DecryptError>,
> {
    Seq::new(items.len(), |i: int| entry_result(items[i].0, items[i].1@, key, iv))
}

/// The fan-in join of per-chapter results: every chapter's view in
/// order, or the first chapter failure in metadata order.
pub open spec fn collect_ok(rs: Seq<Result<ChapterView, DecryptError>>) -> Result<
    Seq<ChapterView>,
    DecryptError,
>
    decreases rs.len(),
{
    if rs.len() == 0 {
        Ok(Seq::empty())
    } else {
        match rs[0] {
            Err(e) => Err(e),
            Ok(c) => match collect_ok(rs.drop_first()) {
                Err(e) => Err(e),
                Ok(rest) => Ok(seq![c] + rest),
            },
        }
    }
}

proof fn lemma_collect_ok_err(rs: Seq<Result<ChapterView, DecryptError>>, i: int)
    requires
        0 <= i < rs.len(),
        forall|j: int| 0 <= j < i ==> rs[j] is Ok,
        rs[i] is Err,
    ensures
        collect_ok(rs) == Err::<Seq<ChapterView>, DecryptError>(rs[i]->Err_0),
    decreases i,
{
    if i > 0 {
        assert(rs[0] is Ok);
        assert forall|j: int| 0 <= j < i - 1 implies rs.drop_first()[j] is Ok by {
            assert(rs[j + 1] is Ok);
        }
        assert(rs.drop_first()[i - 1] == rs[i]);
        lemma_collect_ok_err(rs.drop_first(), i - 1);
    }
}

proof fn lemma_collect_ok_all(rs: Seq<Result<ChapterView, DecryptError>>)
    requires
        forall|j: int| 0 <= j < rs.len() ==> rs[j] is Ok,
    ensures
        collect_ok(rs) matches Ok(v) && v == Seq::new(
            rs.len(),
            (|j: int| rs[j]->Ok_0),
        ),
    decreases rs.len(),
{
    if rs.len() > 0 {
        assert forall|j: int| 0 <= j < rs.drop_first().len() implies rs.drop_first()[j] is Ok by {
            assert(rs[j + 1] is Ok);
        }
        lemma_collect_ok_all(rs.drop_first());
        assert(seq![rs[0]->Ok_0] + Seq::new(
            rs.drop_first().len(),
            (|j: int| rs.drop_first()[j]->Ok_0),
        ) =~= Seq::new(rs.len(), (|j: int| rs[j]->Ok_0)));
    }
}

/// Decrypts one chapter task, joining the decrypted body with the
/// descriptor's display name and order key.
pub fn decrypt_entry(item: (Chapter, String), ctx: &CipherContext) -> (r: Result<
    DecryptedChapter,
    DecryptError,
>)
    requires
        ctx.wf(),
    ensures
        result_view(r) == entry_result(item.0, item.1@, ctx.key@, ctx.iv@),
{
    let (d, blob) = item;
    match decrypt_chapter(blob.as_str(), ctx) {
        Ok(body) => Ok(
            DecryptedChapter {
                sequence_index: d.sequence_index,
                chapter_name: d.chapter_name,
                body,
            },
        ),
        Err(e) => Err(e),
    }
}

/// Relies on rayon's `into_par_iter`, `ParallelIterator::map` and
/// `collect` into a `Vec`: the collected output has one slot per input,
/// in input order, and each slot holds what the mapped closure returned
/// for that input. The closure only calls `decrypt_entry`, whose own
/// verified contract pins each returned value.
#[verifier::external_body]
fn par_map_decrypt(items: Vec<(Chapter, String)>, ctx: &CipherContext) -> (r: Vec<
    Result<DecryptedChapter, DecryptError>,
>)
    requires
        ctx.wf(),
    ensures
        r@.len() == items@.len(),
        forall|i: int|
            0 <= i < items@.len() ==> result_view(#[trigger] r@[i]) == entry_result(
                items@[i].0,
                items@[i].1@,
                ctx.key@,
                ctx.iv@,
            ),
{
    items.into_par_iter().map(|item| decrypt_entry(item, ctx)).collect()
}

/// Runs the fan-out / fan-in pipeline over one book's chapter tasks,
/// each task a descriptor paired with its blob's text.
///
/// An empty task list fails with `NoChaptersFound`, never a silently
/// empty document. Otherwise every chapter is decrypted independently;
/// if some chapter fails, the whole run fails with the first failure in
/// metadata order. On success the chapters come back stable-sorted by
/// ascending sequence index, so the completion order of the parallel
/// tasks never shows in the output.
pub fn assemble(items: Vec<(Chapter, String)>, ctx: &CipherContext) -> (r: Result<
    Vec<DecryptedChapter>,
    DecryptError,
>)
    requires
        ctx.wf(),
    ensures
        match r {
            Ok(v) => items@.len() > 0 && (collect_ok(run_results(items@, ctx.key@, ctx.iv@))
                matches Ok(mid) && views_of(v@) == stable_sort(mid)),
            Err(e) => if items@.len() == 0 {
                e == DecryptError::NoChaptersFound
            } else {
                collect_ok(run_results(items@, ctx.key@, ctx.iv@)) == Err::<
                    Seq<ChapterView>,
                    DecryptError,
                >(e)
            },
        },
{
    if items.len() == 0 {
        return Err(DecryptError::NoChaptersFound);
    }
    let ghost items_v = items@;
    let mut results = par_map_decrypt(items, ctx);
    let ghost rs = results@;
    let ghost specr = run_results(items_v, ctx.key@, ctx.iv@);
    let mut collected: Vec<DecryptedChapter> = Vec::new();
    while results.len() > 0
        invariant
            ctx.wf(),
            items_v == items@,
            collected@.len() + results@.len() == rs.len(),
            rs.len() == specr.len(),
            rs.len() == items_v.len(),
            items_v.len() > 0,
            specr == run_results(items_v, ctx.key@, ctx.iv@),
            results@ == rs.skip(collected@.len() as int),
            forall|j: int| 0 <= j < rs.len() ==> result_view(#[trigger] rs[j]) == specr[j],
            forall|j: int| 0 <= j < collected@.len() ==> (#[trigger] rs[j]) is Ok,
            forall|j: int|
                0 <= j < collected@.len() ==> #[trigger] collected@[j]@ == specr[j]->Ok_0,
        decreases results@.len(),
    {
        let ghost k = collected@.len() as int;
        let r0 = results.remove(0);
        proof {
            assert(r0 == rs.skip(k)[0]);
            assert(r0 == rs[k]);
            assert(results@ =~= rs.skip(k + 1));
        }
        match r0 {
            Ok(c) => {
                proof {
                    assert(result_view(rs[k]) == specr[k]);
                    assert(specr[k]->Ok_0 == c@);
                }
                collected.push(c);
            },
            Err(e) => {
                proof {
                    assert forall|j: int| 0 <= j < k implies specr[j] is Ok by {
                        assert(result_view(rs[j]) == specr[j]);
                    }
                    assert(specr[k] == result_view(rs[k]));
                    lemma_collect_ok_err(specr, k);
                }
                return Err(e);
            },
        }
    }
    proof {
        assert(collected@.len() == rs.len());
        assert forall|j: int| 0 <= j < specr.len() implies specr[j] is Ok by {
            assert(result_view(rs[j]) == specr[j]);
        }
        lemma_collect_ok_all(specr);
        assert(views_of(collected@) =~= Seq::new(specr.len(), (|j: int| specr[j]->Ok_0)));
    }
    sort_chapters(&mut collected);
    Ok(collected)
}

} // verus!
