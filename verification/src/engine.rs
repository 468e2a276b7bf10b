use vstd::prelude::*;
use crate::chars::{str_to_chars, chars_to_string, push_all};
use crate::error::Error;
use crate::ledger::ZipModRecord;
use crate::zipmod::{ZipMod, spec_safe_file_name};

verus! {

/// A directory path joined with one more component: a `/` goes between them
/// unless the directory already ends in one.
pub open spec fn spec_join_path(dir: Seq<char>, component: Seq<char>) -> Seq<char> {
    if dir.len() > 0 && dir.last() == '/' {
        dir + component
    } else {
        dir + seq!['/'] + component
    }
}

/// Joins a directory path and a file or directory name.
pub fn join_path(dir: &str, component: &str) -> (r: String)
    ensures
        r@ == spec_join_path(dir@, component@),
{
    let mut v = str_to_chars(dir);
    let comp = str_to_chars(component);
    if v.len() == 0 || v[v.len() - 1] != '/' {
        v.push('/');
        push_all(&mut v, &comp);
        proof {
            assert(v@ =~= spec_join_path(dir@, component@));
        }
    } else {
        push_all(&mut v, &comp);
    }
    chars_to_string(&v)
}

/// What one discovered package calls for: a copy to a destination the plan
/// names, or nothing because its guid is already recorded.
pub enum RelocationPlan {
    Copy { author_dir: String, target_path: String },
    AlreadyKnown,
}

/// Decides what to do with one extracted package record.  The caller reports
/// whether the destination root exists; a missing root is the fatal,
/// batch-aborting misconfiguration.  Otherwise the guid ledger alone decides:
/// a known guid is skipped, a new one is copied to
/// `destination/author/name`, where the name is the canonical name made safe
/// as a file name.
pub fn plan_relocation(records: &ZipModRecord, zipmod: &ZipMod, to_dir: &str, dest_exists: bool)
    -> (r: Result<RelocationPlan, Error>)
    ensures
        !dest_exists ==> (r matches Err(e) && e is DestinationMissing),
        dest_exists && records.guid_seq().contains(zipmod.guid@) ==> (r matches Ok(p)
            && p is AlreadyKnown),
        dest_exists && !records.guid_seq().contains(zipmod.guid@) ==> (r matches Ok(p)
            && (p matches RelocationPlan::Copy { author_dir, target_path }
            && author_dir@ == spec_join_path(to_dir@, zipmod.author@) && target_path@
            == spec_join_path(
            spec_join_path(to_dir@, zipmod.author@),
            spec_safe_file_name(zipmod.new_name@),
        ))),
{
    if !dest_exists {
        return Err(Error::DestinationMissing);
    }
    if records.contains(zipmod.guid.as_str()) {
        return Ok(RelocationPlan::AlreadyKnown);
    }
    let author_dir = join_path(to_dir, zipmod.author.as_str());
    let file_name = zipmod.target_file_name();
    let target_path = join_path(author_dir.as_str(), file_name.as_str());
    Ok(RelocationPlan::Copy { author_dir, target_path })
}

/// Records a package as relocated: its guid joins the ledger, so that every
/// later sighting of the same guid is skipped.
pub fn record_relocated(records: &mut ZipModRecord, guid: &str)
    ensures
        final(records).guid_seq() == old(records).guid_seq().push(guid@),
        final(records).path == old(records).path,
{
    records.append(guid);
}

/// The ledger after a whole run over the scanned packages, each given as its
/// guid where extraction succeeded and `None` where it failed: every new
/// valid guid is recorded, in scan order, assuming each planned copy
/// succeeds.
pub open spec fn ledger_after(ledger: Seq<Seq<char>>, pkgs: Seq<Option<Seq<char>>>) -> Seq<
    Seq<char>,
>
    decreases pkgs.len(),
{
    if pkgs.len() == 0 {
        ledger
    } else {
        match pkgs[0] {
            None => ledger_after(ledger, pkgs.drop_first()),
            Some(g) => if ledger.contains(g) {
                ledger_after(ledger, pkgs.drop_first())
            } else {
                ledger_after(ledger.push(g), pkgs.drop_first())
            },
        }
    }
}

/// Which packages a run copies: the i-th flag is set exactly when the i-th
/// package is valid and its guid was not yet in the ledger when its turn
/// came.
pub open spec fn copied_flags(ledger: Seq<Seq<char>>, pkgs: Seq<Option<Seq<char>>>) -> Seq<bool>
    decreases pkgs.len(),
{
    if pkgs.len() == 0 {
        Seq::<bool>::empty()
    } else {
        match pkgs[0] {
            None => seq![false] + copied_flags(ledger, pkgs.drop_first()),
            Some(g) => if ledger.contains(g) {
                seq![false] + copied_flags(ledger, pkgs.drop_first())
            } else {
                seq![true] + copied_flags(ledger.push(g), pkgs.drop_first())
            },
        }
    }
}

pub proof fn lemma_copied_flags_len(ledger: Seq<Seq<char>>, pkgs: Seq<Option<Seq<char>>>)
    ensures
        copied_flags(ledger, pkgs).len() == pkgs.len(),
    decreases pkgs.len(),
{
    if pkgs.len() > 0 {
        match pkgs[0] {
            None => lemma_copied_flags_len(ledger, pkgs.drop_first()),
            Some(g) => if ledger.contains(g) {
                lemma_copied_flags_len(ledger, pkgs.drop_first())
            } else {
                lemma_copied_flags_len(ledger.push(g), pkgs.drop_first())
            },
        }
    }
}

/// A guid the ledger holds is still held after any run.
pub proof fn lemma_ledger_monotone(ledger: Seq<Seq<char>>, pkgs: Seq<Option<Seq<char>>>, g: Seq<char>)
    requires
        ledger.contains(g),
    ensures
        ledger_after(ledger, pkgs).contains(g),
    decreases pkgs.len(),
{
    if pkgs.len() > 0 {
        match pkgs[0] {
            None => lemma_ledger_monotone(ledger, pkgs.drop_first(), g),
            Some(h) => if ledger.contains(h) {
                lemma_ledger_monotone(ledger, pkgs.drop_first(), g)
            } else {
                let k = choose|k: int| 0 <= k < ledger.len() && ledger[k] == g;
                assert(ledger.push(h)[k] == g);
                lemma_ledger_monotone(ledger.push(h), pkgs.drop_first(), g)
            },
        }
    }
}

/// After a run, the ledger holds the guid of every valid package the run
/// saw.
pub proof fn lemma_ledger_complete(ledger: Seq<Seq<char>>, pkgs: Seq<Option<Seq<char>>>, i: int)
    requires
        0 <= i < pkgs.len(),
        pkgs[i] is Some,
    ensures
        ledger_after(ledger, pkgs).contains(pkgs[i]->0),
    decreases pkgs.len(),
{
    let g = pkgs[i]->0;
    if i == 0 {
        if ledger.contains(g) {
            lemma_ledger_monotone(ledger, pkgs.drop_first(), g);
        } else {
            assert(ledger.push(g)[ledger.len() as int] == g);
            lemma_ledger_monotone(ledger.push(g), pkgs.drop_first(), g);
        }
    } else {
        assert(pkgs.drop_first()[i - 1] == pkgs[i]);
        match pkgs[0] {
            None => lemma_ledger_complete(ledger, pkgs.drop_first(), i - 1),
            Some(h) => if ledger.contains(h) {
                lemma_ledger_complete(ledger, pkgs.drop_first(), i - 1)
            } else {
                lemma_ledger_complete(ledger.push(h), pkgs.drop_first(), i - 1)
            },
        }
    }
}

/// A run over packages whose valid guids are all already in the ledger
/// copies nothing.
pub proof fn lemma_no_copies_when_known(ledger: Seq<Seq<char>>, pkgs: Seq<Option<Seq<char>>>)
    requires
        forall|i: int| 0 <= i < pkgs.len() && pkgs[i] is Some ==> ledger.contains(#[trigger] pkgs[i]->0),
    ensures
        forall|i: int| 0 <= i < pkgs.len() ==> !(#[trigger] copied_flags(ledger, pkgs)[i]),
    decreases pkgs.len(),
{
    lemma_copied_flags_len(ledger, pkgs);
    if pkgs.len() > 0 {
        let rest = pkgs.drop_first();
        if pkgs[0] is Some {
            assert(ledger.contains(pkgs[0]->0));
        }
        assert forall|i: int| 0 <= i < rest.len() && rest[i] is Some implies ledger.contains(
            #[trigger] rest[i]->0,
        ) by {
            assert(rest[i] == pkgs[i + 1]);
        }
        lemma_no_copies_when_known(ledger, rest);
        lemma_copied_flags_len(ledger, rest);
        assert(copied_flags(ledger, pkgs) =~= seq![false] + copied_flags(ledger, rest));
        assert forall|i: int| 0 <= i < pkgs.len() implies !(#[trigger] copied_flags(
            ledger,
            pkgs,
        )[i]) by {
            if i > 0 {
                assert(copied_flags(ledger, pkgs)[i] == copied_flags(ledger, rest)[i - 1]);
            }
        }
    }
}

/// Idempotence: a second run over the same packages, starting from the
/// ledger the first run left behind, copies nothing at all.
pub proof fn lemma_second_run_copies_nothing(ledger: Seq<Seq<char>>, pkgs: Seq<Option<Seq<char>>>)
    ensures
        forall|i: int|
            0 <= i < pkgs.len() ==> !(#[trigger] copied_flags(ledger_after(ledger, pkgs), pkgs)[i]),
{
    let after = ledger_after(ledger, pkgs);
    assert forall|i: int| 0 <= i < pkgs.len() && pkgs[i] is Some implies after.contains(
        #[trigger] pkgs[i]->0,
    ) by {
        lemma_ledger_complete(ledger, pkgs, i);
    }
    lemma_no_copies_when_known(after, pkgs);
}

/// A run's flags split at any point: the packages before it run against the
/// starting ledger, those after it against the ledger that prefix leaves.
pub proof fn lemma_flags_decompose(ledger: Seq<Seq<char>>, pkgs: Seq<Option<Seq<char>>>, k: int)
    requires
        0 <= k <= pkgs.len(),
    ensures
        copied_flags(ledger, pkgs) == copied_flags(ledger, pkgs.take(k)) + copied_flags(
            ledger_after(ledger, pkgs.take(k)),
            pkgs.skip(k),
        ),
    decreases k,
{
    if k == 0 {
        assert(pkgs.take(0).len() == 0);
        assert(pkgs.skip(0) =~= pkgs);
        assert(copied_flags(ledger, pkgs) =~= copied_flags(ledger, pkgs.take(0)) + copied_flags(
            ledger_after(ledger, pkgs.take(0)),
            pkgs.skip(0),
        ));
    } else {
        let first = pkgs[0];
        let rest = pkgs.drop_first();
        assert(pkgs.take(k)[0] == pkgs[0]);
        assert(pkgs.take(k).drop_first() =~= rest.take(k - 1));
        assert(pkgs.skip(k) =~= rest.skip(k - 1));
        match first {
            None => {
                lemma_flags_decompose(ledger, rest, k - 1);
                assert(copied_flags(ledger, pkgs) =~= seq![false] + copied_flags(ledger, rest));
                assert(copied_flags(ledger, pkgs.take(k)) =~= seq![false] + copied_flags(
                    ledger,
                    rest.take(k - 1),
                ));
                assert(seq![false] + (copied_flags(ledger, rest.take(k - 1)) + copied_flags(
                    ledger_after(ledger, rest.take(k - 1)),
                    rest.skip(k - 1),
                )) =~= (seq![false] + copied_flags(ledger, rest.take(k - 1))) + copied_flags(
                    ledger_after(ledger, rest.take(k - 1)),
                    rest.skip(k - 1),
                ));
            },
            Some(g) => {
                if ledger.contains(g) {
                    lemma_flags_decompose(ledger, rest, k - 1);
                    assert(copied_flags(ledger, pkgs) =~= seq![false] + copied_flags(ledger, rest));
                    assert(copied_flags(ledger, pkgs.take(k)) =~= seq![false] + copied_flags(
                        ledger,
                        rest.take(k - 1),
                    ));
                    assert(seq![false] + (copied_flags(ledger, rest.take(k - 1)) + copied_flags(
                        ledger_after(ledger, rest.take(k - 1)),
                        rest.skip(k - 1),
                    )) =~= (seq![false] + copied_flags(ledger, rest.take(k - 1))) + copied_flags(
                        ledger_after(ledger, rest.take(k - 1)),
                        rest.skip(k - 1),
                    ));
                } else {
                    lemma_flags_decompose(ledger.push(g), rest, k - 1);
                    assert(copied_flags(ledger, pkgs) =~= seq![true] + copied_flags(
                        ledger.push(g),
                        rest,
                    ));
                    assert(copied_flags(ledger, pkgs.take(k)) =~= seq![true] + copied_flags(
                        ledger.push(g),
                        rest.take(k - 1),
                    ));
                    assert(seq![true] + (copied_flags(ledger.push(g), rest.take(k - 1))
                        + copied_flags(
                        ledger_after(ledger.push(g), rest.take(k - 1)),
                        rest.skip(k - 1),
                    )) =~= (seq![true] + copied_flags(ledger.push(g), rest.take(k - 1)))
                        + copied_flags(
                        ledger_after(ledger.push(g), rest.take(k - 1)),
                        rest.skip(k - 1),
                    ));
                }
            },
        }
    }
}

proof fn lemma_after_no_new(ledger: Seq<Seq<char>>, pkgs: Seq<Option<Seq<char>>>, g: Seq<char>)
    requires
        !ledger.contains(g),
        forall|j: int| 0 <= j < pkgs.len() ==> #[trigger] pkgs[j] != Some(g),
    ensures
        !ledger_after(ledger, pkgs).contains(g),
    decreases pkgs.len(),
{
    if pkgs.len() > 0 {
        let rest = pkgs.drop_first();
        assert(forall|j: int| 0 <= j < rest.len() ==> #[trigger] rest[j] == pkgs[j + 1]);
        match pkgs[0] {
            None => lemma_after_no_new(ledger, rest, g),
            Some(h) => {
                assert(pkgs[0] != Some(g));
                if ledger.contains(h) {
                    lemma_after_no_new(ledger, rest, g);
                } else {
                    assert(!ledger.push(h).contains(g)) by {
                        if ledger.push(h).contains(g) {
                            let k = choose|k: int|
                                0 <= k < ledger.push(h).len() && ledger.push(h)[k] == g;
                            if k < ledger.len() {
                                assert(ledger[k] == g);
                            } else {
                                assert(ledger.push(h)[k] == h);
                            }
                        }
                    }
                    lemma_after_no_new(ledger.push(h), rest, g);
                }
            },
        }
    }
}

/// The batch's exact behaviour: a package is copied precisely when its
/// manifest was usable, its guid was not in the ledger the run started with,
/// and no earlier package of the run carried the same guid.
pub proof fn lemma_copied_iff_new(ledger: Seq<Seq<char>>, pkgs: Seq<Option<Seq<char>>>, i: int)
    requires
        0 <= i < pkgs.len(),
    ensures
        copied_flags(ledger, pkgs)[i] <==> (pkgs[i] is Some && !ledger.contains(pkgs[i]->0)
            && (forall|j: int| 0 <= j < i ==> #[trigger] pkgs[j] != pkgs[i])),
{
    lemma_flags_decompose(ledger, pkgs, i);
    lemma_copied_flags_len(ledger, pkgs.take(i));
    let mid = ledger_after(ledger, pkgs.take(i));
    let tail = pkgs.skip(i);
    assert(tail[0] == pkgs[i]);
    assert(copied_flags(ledger, pkgs)[i] == copied_flags(mid, tail)[0]);
    assert(forall|j: int| 0 <= j < i ==> #[trigger] pkgs.take(i)[j] == pkgs[j]);
    match pkgs[i] {
        None => {
            assert(copied_flags(mid, tail)[0] == false);
        },
        Some(g) => {
            assert(copied_flags(mid, tail)[0] == !mid.contains(g));
            if ledger.contains(g) {
                lemma_ledger_monotone(ledger, pkgs.take(i), g);
            } else if exists|j: int| 0 <= j < i && #[trigger] pkgs[j] == Some(g) {
                let j = choose|j: int| 0 <= j < i && #[trigger] pkgs[j] == Some(g);
                lemma_ledger_complete(ledger, pkgs.take(i), j);
            } else {
                assert(forall|j: int|
                    0 <= j < pkgs.take(i).len() ==> #[trigger] pkgs.take(i)[j] != Some(g));
                lemma_after_no_new(ledger, pkgs.take(i), g);
            }
        },
    }
}

/// Identity by guid, not path: when two scanned packages carry the same
/// guid, the later one is never copied, wherever the two sit in the scan.
pub proof fn lemma_same_guid_second_skipped(
    ledger: Seq<Seq<char>>,
    pkgs: Seq<Option<Seq<char>>>,
    i: int,
    j: int,
)
    requires
        0 <= i < j < pkgs.len(),
        pkgs[i] is Some,
        pkgs[j] == pkgs[i],
    ensures
        !copied_flags(ledger, pkgs)[j],
{
    let g = pkgs[i]->0;
    lemma_flags_decompose(ledger, pkgs, j);
    let mid = ledger_after(ledger, pkgs.take(j));
    assert(pkgs.take(j)[i] == pkgs[i]);
    lemma_ledger_complete(ledger, pkgs.take(j), i);
    assert(mid.contains(g));
    lemma_copied_flags_len(ledger, pkgs.take(j));
    assert(pkgs.skip(j)[0] == pkgs[j]);
    assert(copied_flags(mid, pkgs.skip(j))[0] == false);
    assert(copied_flags(ledger, pkgs)[j] == copied_flags(mid, pkgs.skip(j))[0]);
}

} // verus!
