//! How files are told apart and put in order by their names.

use vstd::prelude::*;

use crate::importer::{
    asked_for, by_name, data_files, discover_files, is_data_file, is_data_name, is_wanted_file,
    law_by_name_sorts, lemma_name_rank, name_rank, name_year, sort_by_name, wanted_files, with_unit,
    Contents, FileReport, ImportReport,
};
use crate::laws::imports::{
    law_the_right_files_are_asked_for, lemma_data_files_members, lemma_extended, lemma_extension,
    lemma_same_members, with_extension,
};
use crate::laws::texts::{lemma_number_read, writes_number};
use crate::laws::{lemma_data_names_differ, lemma_names_still_differ, names_differ};
use crate::text::{lemma_text_less_total, lemma_text_less_transitive, text_at_most, text_less};

verus! {

/// Whether a name is that of a data file.
pub open spec fn names_data(name: Seq<char>) -> bool {
    exists|stem: Seq<char>| stem.len() > 0 && name == #[trigger] with_extension(stem)
}

#[verifier::spinoff_prover]
proof fn lemma_names_data(name: Seq<char>)
    ensures
        names_data(name) == is_data_name(name),
{
    if is_data_name(name) {
        lemma_extension(name);
    }
    if names_data(name) {
        let stem = choose|stem: Seq<char>|
            stem.len() > 0 && name == #[trigger] with_extension(stem);
        lemma_extended(stem);
    }
}

/// A data file is known by its name, which has something before `.json`.
#[verifier::spinoff_prover]
pub proof fn law_data_files_are_known_by_name(name: &str, r: bool)
    requires
        call_ensures(is_data_file, (name,), r),
    ensures
        r == names_data(name@),
{
    lemma_names_data(name@);
}

/// Whether one of the years is what a text writes.
pub open spec fn writes_one_of(text: Seq<char>, years: Seq<i32>) -> bool {
    exists|k: int| 0 <= k < years.len() && writes_number(text, #[trigger] years[k] as int)
}

/// A data file is asked for where it is named after one of the years, or no year is
/// given.
#[verifier::spinoff_prover]
pub proof fn law_files_are_asked_for_by_year(
    name: &str,
    stem: Seq<char>,
    year_filter: &Vec<i32>,
    r: bool,
)
    requires
        stem.len() > 0,
        name@ == with_extension(stem),
        call_ensures(is_wanted_file, (name, year_filter), r),
    ensures
        r == (year_filter@.len() == 0 || writes_one_of(stem, year_filter@)),
{
    lemma_extended(stem);
    let years = year_filter@;
    if let Some(year) = name_year(name@) {
        lemma_number_read(stem, year as int);
        if years.contains(year) {
            let k = choose|k: int| 0 <= k < years.len() && years[k] == year;
            assert(writes_number(stem, years[k] as int));
        }
    }
    if writes_one_of(stem, years) {
        let k = choose|k: int|
            0 <= k < years.len() && writes_number(stem, #[trigger] years[k] as int);
        lemma_number_read(stem, years[k] as int);
        assert(years.contains(years[k]));
    }
}

// ---------------------------------------------------------------- order

/// Whether items were put in order from these places: each of them once, by name,
/// and items of the same name as they stood.
pub open spec fn ordered_from<T>(
    items: Seq<(String, T)>,
    sorted: Seq<(String, T)>,
    at: Seq<int>,
) -> bool {
    &&& sorted.len() == items.len()
    &&& at.len() == items.len()
    &&& forall|k: int| 0 <= k < at.len() ==> 0 <= #[trigger] at[k] < items.len()
    &&& forall|k: int| 0 <= k < at.len() ==> sorted[k] == items[#[trigger] at[k]]
    &&& forall|j: int, k: int|
        0 <= j < k < at.len() ==> {
            ||| text_less(items[#[trigger] at[j]].0@, items[#[trigger] at[k]].0@)
            ||| items[at[j]].0@ == items[at[k]].0@ && at[j] < at[k]
        }
}

#[verifier::spinoff_prover]
proof fn lemma_ordered_from<T>(items: Seq<(String, T)>) -> (at: Seq<int>)
    ensures
        ordered_from(items, by_name(items), at),
    decreases items.len(),
{
    if items.len() == 0 {
        Seq::empty()
    } else {
        let tail = items.drop_first();
        let rest = by_name(tail);
        let name = items[0].0@;
        let part = lemma_ordered_from(tail);
        law_by_name_sorts(tail);
        lemma_name_rank(rest, name);
        let r = name_rank(rest, name);
        let moved = Seq::new(part.len(), |k: int| part[k] + 1);
        let at = moved.insert(r, 0);
        let sorted = by_name(items);
        assert forall|k: int| 0 <= k < at.len() implies 0 <= #[trigger] at[k] < items.len()
            && sorted[k] == items[at[k]] by {
            if k < r {
                assert(at[k] == part[k] + 1);
                assert(tail[part[k]] == items[part[k] + 1]);
            } else if k > r {
                assert(at[k] == part[k - 1] + 1);
                assert(tail[part[k - 1]] == items[part[k - 1] + 1]);
            }
        }
        assert forall|j: int, k: int| 0 <= j < k < at.len() implies {
            ||| text_less(items[#[trigger] at[j]].0@, items[#[trigger] at[k]].0@)
            ||| items[at[j]].0@ == items[at[k]].0@ && at[j] < at[k]
        } by {
            let a: int = if j < r {
                j
            } else {
                j - 1
            };
            let b: int = if k < r {
                k
            } else {
                k - 1
            };
            if j != r {
                assert(at[j] == part[a] + 1);
                assert(tail[part[a]] == items[at[j]]);
                assert(rest[a] == tail[part[a]]);
            }
            if k != r {
                assert(at[k] == part[b] + 1);
                assert(tail[part[b]] == items[at[k]]);
                assert(rest[b] == tail[part[b]]);
            }
            if j == r {
                lemma_text_less_total(name, rest[b].0@);
                if text_less(rest[b].0@, name) && r < b {
                    assert(text_at_most(rest[r].0@, rest[b].0@));
                    if rest[r].0@ != rest[b].0@ {
                        lemma_text_less_transitive(rest[r].0@, rest[b].0@, name);
                    }
                }
            }
        }
        at
    }
}

/// Files are put in the order of their names; none is lost, none is added.
#[verifier::spinoff_prover]
pub proof fn law_files_are_put_in_order<T>(items: Vec<(String, T)>, r: Vec<(String, T)>)
    requires
        call_ensures(sort_by_name::<T>, (items,), r),
    ensures
        exists|at: Seq<int>| #[trigger] ordered_from(items@, r@, at),
{
    let at = lemma_ordered_from(items@);
}

/// Where all files have different names, none is asked for twice: their names ascend.
#[verifier::spinoff_prover]
pub proof fn law_no_file_is_asked_for_twice(
    files: Seq<(String, Contents)>,
    year_filter: Seq<i32>,
)
    requires
        names_differ(files),
    ensures
        forall|i: int, j: int|
            0 <= i < j < asked_for(files, year_filter).len() ==> text_less(
                (#[trigger] asked_for(files, year_filter)[i]).0@,
                (#[trigger] asked_for(files, year_filter)[j]).0@,
            ),
{
    let found = data_files(files);
    lemma_data_names_differ(files);
    law_by_name_sorts(found);
    lemma_names_still_differ(found, by_name(found));
    lemma_wanted_differ(by_name(found), year_filter);
    law_the_right_files_are_asked_for(files, year_filter);
}

#[verifier::spinoff_prover]
proof fn lemma_wanted_differ(files: Seq<(String, Contents)>, year_filter: Seq<i32>)
    requires
        names_differ(files),
    ensures
        names_differ(wanted_files(files, year_filter)),
        forall|i: int|
            0 <= i < wanted_files(files, year_filter).len() ==> files.contains(
                #[trigger] wanted_files(files, year_filter)[i],
            ),
    decreases files.len(),
{
    if files.len() > 0 {
        let n = files.len() - 1;
        let rest = files.drop_last();
        assert forall|i: int, j: int| 0 <= i < j < rest.len() implies (#[trigger] rest[i]).0@ != (
        #[trigger] rest[j]).0@ by {
            assert(rest[i] == files[i] && rest[j] == files[j]);
        }
        lemma_wanted_differ(rest, year_filter);
        let kept = wanted_files(rest, year_filter);
        let all = wanted_files(files, year_filter);
        assert(files.last() == files[n]);
        assert forall|i: int| 0 <= i < all.len() implies files.contains(#[trigger] all[i]) by {
            if i < kept.len() {
                assert(all[i] == kept[i]);
                let k = choose|k: int| 0 <= k < rest.len() && rest[k] == kept[i];
                assert(files[k] == all[i]);
            }
        }
        assert forall|i: int, j: int| 0 <= i < j < all.len() implies (#[trigger] all[i]).0@ != (
        #[trigger] all[j]).0@ by {
            assert(all[i] == kept[i]);
            let k = choose|k: int| 0 <= k < rest.len() && rest[k] == kept[i];
            assert(files[k] == all[i]);
            if j < kept.len() {
                assert(all[j] == kept[j]);
            }
        }
    }
}

/// The data files of a directory are found by name, in order, and no others; none is
/// found twice where all names differ.
#[verifier::spinoff_prover]
pub proof fn law_data_files_are_found(names: Vec<String>, r: Vec<String>)
    requires
        call_ensures(discover_files, (names,), r),
    ensures
        forall|name: String| #[trigger]
            r@.contains(name) == (names@.contains(name) && names_data(name@)),
        forall|i: int, j: int|
            0 <= i < j < r@.len() ==> (#[trigger] r@[i])@ == (#[trigger] r@[j])@ || text_less(
                r@[i]@,
                r@[j]@,
            ),
        (forall|i: int, j: int|
            0 <= i < j < names@.len() ==> (#[trigger] names@[i])@ != (#[trigger] names@[j])@)
            ==> forall|i: int, j: int|
            0 <= i < j < r@.len() ==> (#[trigger] r@[i])@ != (#[trigger] r@[j])@,
{
    let files = with_unit(names@);
    let found = data_files(files);
    let sorted = by_name(found);
    law_by_name_sorts(found);
    assert(r@.len() == sorted.len());
    assert forall|name: String| #[trigger] r@.contains(name) == (names@.contains(name)
        && names_data(name@)) by {
        let file = (name, ());
        lemma_names_data(name@);
        lemma_data_files_members(files, file);
        lemma_same_members(sorted, found, file);
        if names@.contains(name) {
            let i = choose|i: int| 0 <= i < names@.len() && names@[i] == name;
            assert(files[i] == file);
        }
        if files.contains(file) {
            let i = choose|i: int| 0 <= i < files.len() && files[i] == file;
            assert(names@[i] == name);
        }
        if r@.contains(name) {
            let i = choose|i: int| 0 <= i < r@.len() && r@[i] == name;
            assert(sorted[i] == file);
        }
        if sorted.contains(file) {
            let i = choose|i: int| 0 <= i < sorted.len() && sorted[i] == file;
            assert(r@[i] == name);
        }
    }
    assert forall|i: int, j: int| 0 <= i < j < r@.len() implies (#[trigger] r@[i])@ == (
    #[trigger] r@[j])@ || text_less(r@[i]@, r@[j]@) by {
        assert(r@[i] == sorted[i].0 && r@[j] == sorted[j].0);
    }
    if forall|i: int, j: int|
        0 <= i < j < names@.len() ==> (#[trigger] names@[i])@ != (#[trigger] names@[j])@ {
        assert forall|i: int, j: int| 0 <= i < j < files.len() implies (#[trigger] files[i]).0@ != (
        #[trigger] files[j]).0@ by {
            assert(files[i].0 == names@[i] && files[j].0 == names@[j]);
        }
        lemma_data_names_differ(files);
        lemma_names_still_differ(found, sorted);
        assert forall|i: int, j: int| 0 <= i < j < r@.len() implies (#[trigger] r@[i])@ != (
        #[trigger] r@[j])@ by {
            assert(r@[i] == sorted[i].0 && r@[j] == sorted[j].0);
        }
    }
}

// ---------------------------------------------------------------- reports

/// Noting a file adds its report and its numbers, or its name and why it failed,
/// behind what was noted before.
#[verifier::spinoff_prover]
pub proof fn law_files_are_noted_right(name: &str, outcome: Result<FileReport, String>)
    ensures
        forall|report: &mut ImportReport| #[trigger]
            call_ensures(ImportReport::note, (report, name, outcome), ()) ==> {
                let now = *final(report);
                &&& outcome matches Ok(done) ==> {
                    &&& now.files@ == report.files@ + seq![done]
                    &&& now.failures@ == report.failures@
                    &&& now.outcome.inserted - report.outcome.inserted == done.outcome.inserted
                    &&& now.outcome.updated - report.outcome.updated == done.outcome.updated
                    &&& now.invalid - report.invalid == done.invalid@.len()
                }
                &&& outcome matches Err(reason) ==> {
                    &&& now.files@ == report.files@
                    &&& now.failures@.len() == report.failures@.len() + 1
                    &&& forall|i: int|
                        0 <= i < report.failures@.len() ==> #[trigger] now.failures@[i]
                            == report.failures@[i]
                    &&& now.failures@[now.failures@.len() - 1].0@ == name@
                    &&& now.failures@[now.failures@.len() - 1].1@ == reason@
                    &&& now.outcome == report.outcome
                    &&& now.invalid == report.invalid
                }
            },
{
    assert forall|report: &mut ImportReport| #[trigger] call_ensures(
        ImportReport::note,
        (report, name, outcome),
        (),
    ) implies {
        let now = *final(report);
        &&& outcome matches Ok(done) ==> {
            &&& now.files@ == report.files@ + seq![done]
            &&& now.failures@ == report.failures@
            &&& now.outcome.inserted - report.outcome.inserted == done.outcome.inserted
            &&& now.outcome.updated - report.outcome.updated == done.outcome.updated
            &&& now.invalid - report.invalid == done.invalid@.len()
        }
        &&& outcome matches Err(reason) ==> {
            &&& now.files@ == report.files@
            &&& now.failures@.len() == report.failures@.len() + 1
            &&& forall|i: int|
                0 <= i < report.failures@.len() ==> #[trigger] now.failures@[i]
                    == report.failures@[i]
            &&& now.failures@[now.failures@.len() - 1].0@ == name@
            &&& now.failures@[now.failures@.len() - 1].1@ == reason@
            &&& now.outcome == report.outcome
            &&& now.invalid == report.invalid
        }
    } by {
        let now = *final(report);
        if let Ok(done) = outcome {
            assert(now.files@ =~= report.files@ + seq![done]);
        } else {
            assert forall|i: int| 0 <= i < report.failures@.len() implies
                #[trigger] now.failures@[i] == report.failures@[i] by {
                assert(now.failures@.drop_last()[i] == now.failures@[i]);
            }
        }
    }
}

} // verus!
