//! Pagination of rendered items into lines: a fixed number of items per
//! line, a configurable separator between items on the same line.

use vstd::prelude::*;
use vstd::string::StringExecFns;

verus! {

/// The views of a sequence of strings.
pub open spec fn str_views(items: Seq<String>) -> Seq<Seq<char>> {
    items.map_values(|s: String| s@)
}

/// The items joined with `sep` between neighbours.
pub open spec fn join_sep(items: Seq<Seq<char>>, sep: Seq<char>) -> Seq<char>
    decreases items.len(),
{
    if items.len() == 0 {
        Seq::empty()
    } else if items.len() == 1 {
        items[0]
    } else {
        items[0] + sep + join_sep(items.drop_first(), sep)
    }
}

/// Appending one more item extends a nonempty join by a separator and the
/// item.
pub proof fn lemma_join_sep_push(items: Seq<Seq<char>>, sep: Seq<char>, x: Seq<char>)
    requires
        items.len() >= 1,
    ensures
        join_sep(items.push(x), sep) == join_sep(items, sep) + sep + x,
    decreases items.len(),
{
    let pushed = items.push(x);
    if items.len() == 1 {
        assert(pushed.drop_first() =~= seq![x]);
        assert(join_sep(seq![x], sep) == x);
        assert(pushed[0] == items[0]);
    } else {
        lemma_join_sep_push(items.drop_first(), sep, x);
        assert(pushed.drop_first() =~= items.drop_first().push(x));
        assert(pushed[0] == items[0]);
        assert(items[0] + sep + (join_sep(items.drop_first(), sep) + sep + x) =~= (items[0] + sep
            + join_sep(items.drop_first(), sep)) + sep + x);
    }
}

/// The stream chunked into lines of `per` items, each line joined with
/// `sep`.
pub open spec fn layout_spec(items: Seq<Seq<char>>, per: nat, sep: Seq<char>) -> Seq<Seq<char>>
    decreases items.len(),
{
    if per < 1 || items.len() == 0 {
        Seq::empty()
    } else if items.len() <= per {
        seq![join_sep(items, sep)]
    } else {
        seq![join_sep(items.take(per as int), sep)] + layout_spec(
            items.skip(per as int),
            per,
            sep,
        )
    }
}

/// Groups `items` into lines of `per` items joined by `sep`; the last
/// line may hold fewer items.
pub fn layout_lines(items: &Vec<String>, per: usize, sep: &str) -> (lines: Vec<String>)
    requires
        per >= 1,
    ensures
        str_views(lines@) == layout_spec(str_views(items@), per as nat, sep@),
{
    let ghost gitems = str_views(items@);
    let mut lines: Vec<String> = Vec::new();
    let mut i: usize = 0;
    proof {
        assert(gitems.skip(0) =~= gitems);
        assert(str_views(lines@) =~= Seq::<Seq<char>>::empty());
        assert(Seq::<Seq<char>>::empty() + layout_spec(gitems, per as nat, sep@) =~= layout_spec(
            gitems,
            per as nat,
            sep@,
        ));
    }
    while i < items.len()
        invariant
            per >= 1,
            i <= items.len(),
            gitems == str_views(items@),
            gitems.len() == items@.len(),
            layout_spec(gitems, per as nat, sep@) == str_views(lines@) + layout_spec(
                gitems.skip(i as int),
                per as nat,
                sep@,
            ),
        decreases items.len() - i,
    {
        let end = if items.len() - i < per {
            items.len()
        } else {
            i + per
        };
        let mut line = String::new();
        let mut j = i;
        while j < end
            invariant
                i <= j <= end <= items.len(),
                i < end,
                gitems == str_views(items@),
                gitems.len() == items@.len(),
                j == i ==> line@ == Seq::<char>::empty(),
                j > i ==> line@ == join_sep(gitems.subrange(i as int, j as int), sep@),
            decreases end - j,
        {
            if j > i {
                line.append(sep);
                proof {
                    lemma_join_sep_push(
                        gitems.subrange(i as int, j as int),
                        sep@,
                        gitems[j as int],
                    );
                    assert(gitems.subrange(i as int, j + 1) =~= gitems.subrange(
                        i as int,
                        j as int,
                    ).push(gitems[j as int]));
                }
            } else {
                proof {
                    assert(gitems.subrange(i as int, j + 1) =~= seq![gitems[j as int]]);
                }
            }
            line.append(items[j].as_str());
            j = j + 1;
        }
        proof {
            let rest = gitems.skip(i as int);
            assert(rest.len() == gitems.len() - i);
            if rest.len() <= per {
                assert(end == items.len());
                assert(gitems.subrange(i as int, end as int) =~= rest);
                assert(layout_spec(rest, per as nat, sep@) =~= seq![join_sep(rest, sep@)]);
                assert(gitems.skip(end as int) =~= Seq::<Seq<char>>::empty());
            } else {
                assert(end == i + per);
                assert(gitems.subrange(i as int, end as int) =~= rest.take(per as int));
                assert(rest.skip(per as int) =~= gitems.skip(end as int));
            }
            assert(str_views(lines@.push(line)) =~= str_views(lines@).push(line@));
            assert(str_views(lines@).push(line@) + layout_spec(gitems.skip(end as int), per as nat, sep@)
                =~= str_views(lines@) + (seq![line@] + layout_spec(
                gitems.skip(end as int),
                per as nat,
                sep@,
            )));
        }
        lines.push(line);
        i = end;
    }
    proof {
        assert(gitems.skip(gitems.len() as int) =~= Seq::<Seq<char>>::empty());
    }
    lines
}

} // verus!
