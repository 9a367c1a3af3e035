//! The order of the rows of a table does not matter: rows of one country are
//! added up, and sums do not depend on the order of their terms. Neither
//! does it depend on the order whether all rows can be folded in.

use vstd::prelude::*;
use crate::aggregate::{
    absorb, add_series, blank, merge_error, merged, record_or_blank, ReadingView,
};
use crate::countries::{by_name, distinct_names, has_name, lemma_put, position};
use crate::country::{CountryView, DataType};
use crate::load::{merge_outcome, reading_of};

verus! {

/// The record kept under a name, or a blank one where the name is not known.
pub open spec fn known(m: Map<Seq<char>, CountryView>, name: Seq<char>) -> CountryView {
    if m.dom().contains(name) {
        m[name]
    } else {
        blank(name)
    }
}

/// The records by name after one reading has been folded in.
pub open spec fn absorb_by_name(
    m: Map<Seq<char>, CountryView>,
    r: ReadingView,
    data_type: DataType,
) -> Map<Seq<char>, CountryView> {
    m.insert(r.country, merged(known(m, r.country), r, data_type))
}

/// The records by name after one more row, or `None` where folding has
/// failed before or fails at this row.
pub open spec fn try_row(
    m: Option<Map<Seq<char>, CountryView>>,
    row: Seq<Seq<char>>,
    header_count: nat,
    data_type: DataType,
) -> Option<Map<Seq<char>, CountryView>> {
    match (m, reading_of(row, header_count)) {
        (Some(m), Ok(r)) => if merge_error(known(m, r.country), r, data_type) is None {
            Some(absorb_by_name(m, r, data_type))
        } else {
            None
        },
        _ => None,
    }
}

/// The records by name after the rows have been folded in, first row first,
/// or `None` where a row cannot be read or added.
pub open spec fn try_rows(
    m: Option<Map<Seq<char>, CountryView>>,
    rows: Seq<Seq<Seq<char>>>,
    header_count: nat,
    data_type: DataType,
) -> Option<Map<Seq<char>, CountryView>>
    decreases rows.len(),
{
    if rows.len() == 0 {
        m
    } else {
        try_row(
            try_rows(m, rows.drop_last(), header_count, data_type),
            rows.last(),
            header_count,
            data_type,
        )
    }
}

/// Folding a reading into the stored records is folding it into the records
/// by name; the names stay distinct.
pub proof fn lemma_absorb_by_name(s: Seq<CountryView>, r: ReadingView, data_type: DataType)
    requires
        distinct_names(s),
    ensures
        distinct_names(absorb(s, r, data_type)),
        record_or_blank(s, r.country) == known(by_name(s), r.country),
        by_name(absorb(s, r, data_type)) == absorb_by_name(by_name(s), r, data_type),
{
    let c = merged(record_or_blank(s, r.country), r, data_type);
    if has_name(s, r.country) {
        let p = position(s, r.country);
        assert(0 <= p < s.len() && s[p].country == r.country);
    }
    assert(c.country == r.country);
    lemma_put(s, c);
}

/// Two readings of one country with the same number of dates: if they can
/// be added to a record one after the other, they can be added in the other
/// order too, and the record is the same.
proof fn lemma_add_twice(c: CountryView, a: ReadingView, b: ReadingView, data_type: DataType)
    requires
        a.values.len() == b.values.len(),
        merge_error(c, a, data_type) is None,
        merge_error(merged(c, a, data_type), b, data_type) is None,
    ensures
        merge_error(c, b, data_type) is None,
        merge_error(merged(c, b, data_type), a, data_type) is None,
        merged(merged(c, a, data_type), b, data_type) == merged(
            merged(c, b, data_type),
            a,
            data_type,
        ),
{
    let n = a.values.len() as int;
    let ca = merged(c, a, data_type);
    let cb = merged(c, b, data_type);
    let cab = merged(ca, b, data_type);
    let cba = merged(cb, a, data_type);
    assert(ca.dated(n as nat));
    assert(cb.dated(n as nat));
    assert forall|i: int| 0 <= i < n implies #[trigger] add_series(c.series(data_type), b.values)[i]
        <= u32::MAX by {
        assert(add_series(ca.series(data_type), b.values)[i] <= u32::MAX);
    }
    assert forall|i: int| 0 <= i < n implies #[trigger] add_series(cb.series(data_type), a.values)[i]
        <= u32::MAX by {
        assert(add_series(ca.series(data_type), b.values)[i] <= u32::MAX);
    }
    assert(cab.confirmed_map =~= cba.confirmed_map);
    assert(cab.deaths_map =~= cba.deaths_map);
    assert(cab.recovered_map =~= cba.recovered_map);
}

/// Two rows can be folded in in either order: either both orders fail, or
/// both give the same records.
pub proof fn lemma_rows_commute(
    m: Option<Map<Seq<char>, CountryView>>,
    x: Seq<Seq<char>>,
    y: Seq<Seq<char>>,
    header_count: nat,
    data_type: DataType,
)
    ensures
        try_row(try_row(m, x, header_count, data_type), y, header_count, data_type) == try_row(
            try_row(m, y, header_count, data_type),
            x,
            header_count,
            data_type,
        ),
{
    let xy = try_row(try_row(m, x, header_count, data_type), y, header_count, data_type);
    let yx = try_row(try_row(m, y, header_count, data_type), x, header_count, data_type);
    if let (Some(m0), Ok(a), Ok(b)) = (
        m,
        reading_of(x, header_count),
        reading_of(y, header_count),
    ) {
        let c = known(m0, a.country);
        let d = known(m0, b.country);
        if a.country == b.country {
            if xy is Some {
                lemma_add_twice(c, a, b, data_type);
            }
            if yx is Some {
                lemma_add_twice(c, b, a, data_type);
            }
        } else {
            assert(known(absorb_by_name(m0, a, data_type), b.country) == d);
            assert(known(absorb_by_name(m0, b, data_type), a.country) == c);
        }
        if xy is Some {
            assert(xy->0 =~= yx->0);
        }
    }
}

/// Once folding has failed, it has failed.
proof fn lemma_failed_stays_failed(
    rows: Seq<Seq<Seq<char>>>,
    header_count: nat,
    data_type: DataType,
)
    ensures
        try_rows(None, rows, header_count, data_type) is None,
    decreases rows.len(),
{
    if rows.len() > 0 {
        lemma_failed_stays_failed(rows.drop_last(), header_count, data_type);
    }
}

/// Folding the first row in and then the others is folding all of them in.
proof fn lemma_first_row_first(
    m: Option<Map<Seq<char>, CountryView>>,
    rows: Seq<Seq<Seq<char>>>,
    header_count: nat,
    data_type: DataType,
)
    requires
        rows.len() > 0,
    ensures
        try_rows(m, rows, header_count, data_type) == try_rows(
            try_row(m, rows[0], header_count, data_type),
            rows.subrange(1, rows.len() as int),
            header_count,
            data_type,
        ),
    decreases rows.len(),
{
    let rest = rows.subrange(1, rows.len() as int);
    if rows.len() == 1 {
        assert(rows.drop_last().len() == 0);
        assert(rows.last() == rows[0]);
        assert(try_rows(m, rows.drop_last(), header_count, data_type) == m);
    } else {
        lemma_first_row_first(m, rows.drop_last(), header_count, data_type);
        assert(rows.drop_last()[0] == rows[0]);
        assert(rows.drop_last().subrange(1, rows.len() - 1) =~= rest.drop_last());
        assert(rest.last() == rows.last());
    }
}

/// The row at place `k` can as well be folded in last.
proof fn lemma_one_row_last(
    m: Option<Map<Seq<char>, CountryView>>,
    rows: Seq<Seq<Seq<char>>>,
    header_count: nat,
    data_type: DataType,
    k: int,
)
    requires
        0 <= k < rows.len(),
    ensures
        try_rows(m, rows, header_count, data_type) == try_row(
            try_rows(m, rows.remove(k), header_count, data_type),
            rows[k],
            header_count,
            data_type,
        ),
    decreases rows.len(),
{
    if k == rows.len() - 1 {
        assert(rows.remove(k) =~= rows.drop_last());
    } else {
        let front = rows.drop_last();
        lemma_one_row_last(m, front, header_count, data_type, k);
        lemma_rows_commute(
            try_rows(m, front.remove(k), header_count, data_type),
            rows[k],
            rows.last(),
            header_count,
            data_type,
        );
        assert(front[k] == rows[k]);
        assert(rows.remove(k).drop_last() =~= front.remove(k));
        assert(rows.remove(k).last() == rows.last());
    }
}

/// The same rows in another order fold to the same outcome.
pub proof fn lemma_rows_permuted(
    m: Option<Map<Seq<char>, CountryView>>,
    rows: Seq<Seq<Seq<char>>>,
    permuted: Seq<Seq<Seq<char>>>,
    header_count: nat,
    data_type: DataType,
)
    requires
        rows.to_multiset() == permuted.to_multiset(),
    ensures
        try_rows(m, rows, header_count, data_type) == try_rows(
            m,
            permuted,
            header_count,
            data_type,
        ),
    decreases rows.len(),
{
    rows.to_multiset_ensures();
    permuted.to_multiset_ensures();
    if rows.len() == 0 {
        assert(permuted.len() == 0);
    } else {
        let last = rows.last();
        assert(rows.contains(last)) by {
            assert(rows[rows.len() - 1] == last);
        }
        assert(permuted.to_multiset().count(last) > 0);
        assert(permuted.contains(last));
        let k = choose|k: int| 0 <= k < permuted.len() && permuted[k] == last;
        assert(rows.drop_last() =~= rows.remove(rows.len() - 1));
        assert(rows.drop_last().to_multiset() =~= permuted.remove(k).to_multiset());
        lemma_rows_permuted(m, rows.drop_last(), permuted.remove(k), header_count, data_type);
        lemma_one_row_last(m, permuted, header_count, data_type, k);
    }
}

/// Folding rows into the stored records goes through exactly where folding
/// them into the records by name does, and then gives those records.
pub proof fn lemma_merge_by_name(
    s: Seq<CountryView>,
    rows: Seq<Seq<Seq<char>>>,
    header_count: nat,
    data_type: DataType,
)
    requires
        distinct_names(s),
    ensures
        match try_rows(Some(by_name(s)), rows, header_count, data_type) {
            Some(m) => {
                &&& merge_outcome(s, rows, header_count, data_type).1 is None
                &&& distinct_names(merge_outcome(s, rows, header_count, data_type).0)
                &&& by_name(merge_outcome(s, rows, header_count, data_type).0) == m
            },
            None => merge_outcome(s, rows, header_count, data_type).1 is Some,
        },
    decreases rows.len(),
{
    if rows.len() > 0 {
        let rest = rows.subrange(1, rows.len() as int);
        lemma_first_row_first(Some(by_name(s)), rows, header_count, data_type);
        match reading_of(rows[0], header_count) {
            Ok(r) => {
                lemma_absorb_by_name(s, r, data_type);
                if merge_error(record_or_blank(s, r.country), r, data_type) is None {
                    lemma_merge_by_name(absorb(s, r, data_type), rest, header_count, data_type);
                } else {
                    lemma_failed_stays_failed(rest, header_count, data_type);
                }
            },
            Err(_) => {
                lemma_failed_stays_failed(rest, header_count, data_type);
            },
        }
    }
}

/// The order of the rows of a table is irrelevant: the same rows in another
/// order can be folded into the records exactly if these can, and then every
/// country gets the same record.
pub proof fn lemma_row_order_is_irrelevant(
    s: Seq<CountryView>,
    rows: Seq<Seq<Seq<char>>>,
    permuted: Seq<Seq<Seq<char>>>,
    header_count: nat,
    data_type: DataType,
)
    requires
        distinct_names(s),
        rows.to_multiset() == permuted.to_multiset(),
    ensures
        merge_outcome(s, rows, header_count, data_type).1 is None <==> merge_outcome(
            s,
            permuted,
            header_count,
            data_type,
        ).1 is None,
        merge_outcome(s, rows, header_count, data_type).1 is None ==> by_name(
            merge_outcome(s, rows, header_count, data_type).0,
        ) == by_name(merge_outcome(s, permuted, header_count, data_type).0),
{
    lemma_merge_by_name(s, rows, header_count, data_type);
    lemma_merge_by_name(s, permuted, header_count, data_type);
    lemma_rows_permuted(Some(by_name(s)), rows, permuted, header_count, data_type);
}

} // verus!
