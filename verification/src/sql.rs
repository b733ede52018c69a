//! The texts of the queries whose shape depends on what is asked for, and
//! the values bound to them.

use crate::text::{lowercase_of, trimmed};
use vstd::prelude::*;
use vstd::string::*;

verus! {

/// A value bound to a placeholder of a query.
#[derive(Debug, Clone)]
pub enum SqlValue {
    Text(String),
    Integer(i64),
}

/// What a bound value holds, as a plain value.
pub enum SqlValueView {
    Text(Seq<char>),
    Integer(i64),
}

/// The values of a list, each as a plain value.
pub open spec fn value_views(values: Seq<SqlValue>) -> Seq<SqlValueView> {
    values.map_values(
        |v: SqlValue|
            match v {
                SqlValue::Text(t) => SqlValueView::Text(t@),
                SqlValue::Integer(n) => SqlValueView::Integer(n),
            },
    )
}

/// The pattern that matches every text in which `text` occurs, whatever
/// its case.
pub open spec fn contains_pattern(text: Seq<char>) -> Seq<char> {
    "%"@ + lowercase_of(text) + "%"@
}

/// The pattern that matches every text that starts with `text`, whatever
/// its case.
pub open spec fn prefix_pattern(text: Seq<char>) -> Seq<char> {
    lowercase_of(text) + "%"@
}

/// The pattern for a search of texts in which `text` occurs.
pub fn like_pattern(text: &str) -> (r: String)
    ensures
        r@ == contains_pattern(text@),
{
    let mut pattern = String::from_str("%");
    let lowered = text.to_lowercase();
    pattern.append(lowered.as_str());
    pattern.append("%");
    pattern
}

/// `unit` written `count` times, with a comma and a blank between two
/// of them.
pub open spec fn repeated(unit: Seq<char>, count: nat) -> Seq<char>
    decreases count,
{
    if count == 0 {
        Seq::empty()
    } else if count == 1 {
        unit
    } else {
        repeated(unit, (count - 1) as nat) + ", "@ + unit
    }
}

/// The placeholders of a list of `count` items, each written as `unit`.
pub fn placeholders(unit: &str, count: usize) -> (r: String)
    ensures
        r@ == repeated(unit@, count as nat),
{
    let mut out = String::new();
    let mut i: usize = 0;
    while i < count
        invariant
            0 <= i <= count,
            out@ == repeated(unit@, i as nat),
        decreases count - i,
    {
        if i > 0 {
            out.append(", ");
        }
        out.append(unit);
        proof {
            if i == 0 {
                assert(Seq::<char>::empty() + unit@ =~= unit@);
            }
        }
        i += 1;
    }
    out
}

/// The start and end of each batch when `total` items are taken `size` at
/// a time: batch `k` starts at `k * size`, every batch but the last is
/// full, and the last ends with the items.
pub fn batch_ranges(total: usize, size: usize) -> (r: Vec<(usize, usize)>)
    requires
        size > 0,
    ensures
        r@.len() == if total == 0 {
            0
        } else {
            (total - 1) / (size as int) + 1
        },
        forall|k: int|
            0 <= k < r@.len() ==> (#[trigger] r@[k]).0 == k * size && r@[k].1 == if (k + 1) * size
                <= total {
                (k + 1) * size
            } else {
                total as int
            },
{
    let mut out: Vec<(usize, usize)> = Vec::new();
    let mut start: usize = 0;
    assert(0 * size == 0) by (nonlinear_arith);
    while start < total
        invariant
            size > 0,
            0 <= start <= total,
            start < total ==> start == out.len() * size,
            start == total ==> out@.len() == if total == 0 {
                0
            } else {
                (total - 1) / (size as int) + 1
            },
            forall|k: int|
                0 <= k < out@.len() ==> (#[trigger] out@[k]).0 == k * size && out@[k].1 == if (k
                    + 1) * size <= total {
                    (k + 1) * size
                } else {
                    total as int
                },
        decreases total - start,
    {
        let ghost n = out.len() as int;
        let ghost width = size as int;
        let ghost all = total as int;
        let end = if size <= total - start {
            start + size
        } else {
            total
        };
        proof {
            assert((n + 1) * width == n * width + width) by (nonlinear_arith);
            if end == total {
                assert((all - 1) / width == n) by (nonlinear_arith)
                    requires
                        n * width < all,
                        all <= n * width + width,
                        width > 0,
                ;
            }
        }
        out.push((start, end));
        start = end;
    }
    out
}

/// Something is asked for: a text that is there and not blank.
pub open spec fn asked(query: Option<Seq<char>>) -> bool {
    query is Some && trimmed(query->0).len() > 0
}

/// The columns that a search of the coverage entries returns.
pub open spec fn search_head() -> Seq<char> {
    "SELECT form_id, record_type, subrecord_type, \"index\", text, source_mod, load_order_pos, extracted_at FROM coverage_entries"@
}

/// The order and limit of a search that asks for a text: best match
/// first, then the later plugin, then the later extraction.
pub open spec fn ranked_tail() -> Seq<char> {
    " ORDER BY CASE WHEN LOWER(text) = ? THEN 4 WHEN LOWER(text) LIKE ? THEN 3 WHEN LOWER(text) LIKE ? THEN 2 ELSE 1 END DESC, load_order_pos DESC, extracted_at DESC LIMIT ?"@
}

/// The order and limit of a search that asks for no text: the latest
/// extraction first.
pub open spec fn plain_tail() -> Seq<char> {
    " ORDER BY extracted_at DESC LIMIT ?"@
}

/// The text of a search of the coverage entries.
pub open spec fn search_text(form_id_query: Option<Seq<char>>, text_query: Option<Seq<char>>) -> Seq<char> {
    let by_form = asked(form_id_query);
    let by_text = asked(text_query);
    let filter = if by_form && by_text {
        " WHERE LOWER(form_id) LIKE ? AND LOWER(text) LIKE ?"@
    } else if by_form {
        " WHERE LOWER(form_id) LIKE ?"@
    } else if by_text {
        " WHERE LOWER(text) LIKE ?"@
    } else {
        Seq::empty()
    };
    search_head() + filter + if by_text {
        ranked_tail()
    } else {
        plain_tail()
    }
}

/// The values bound to a search of the coverage entries, in the order of
/// its placeholders.
pub open spec fn search_values(form_id_query: Option<Seq<char>>, text_query: Option<Seq<char>>, limit: u32) -> Seq<SqlValueView> {
    let form_part = if asked(form_id_query) {
        seq![SqlValueView::Text(contains_pattern(form_id_query->0))]
    } else {
        Seq::empty()
    };
    let text_part = if asked(text_query) {
        seq![SqlValueView::Text(contains_pattern(text_query->0))]
    } else {
        Seq::empty()
    };
    let rank_part = if asked(text_query) {
        seq![
            SqlValueView::Text(lowercase_of(text_query->0)),
            SqlValueView::Text(prefix_pattern(text_query->0)),
            SqlValueView::Text(contains_pattern(text_query->0)),
        ]
    } else {
        Seq::empty()
    };
    form_part + text_part + rank_part + seq![SqlValueView::Integer(limit as i64)]
}

fn is_asked(query: Option<&str>) -> (r: bool)
    ensures
        r == asked(
            match query {
                Some(q) => Some(q@),
                None => None,
            },
        ),
{
    match query {
        Some(q) => !q.trim().is_empty(),
        None => false,
    }
}

/// The text of a search of the coverage entries, and the values bound to
/// it.
pub fn search_entries_query(form_id_query: Option<&str>, text_query: Option<&str>, limit: u32) -> (r: (
    String,
    Vec<SqlValue>,
))
    ensures
        r.0@ == search_text(
            match form_id_query {
                Some(q) => Some(q@),
                None => None,
            },
            match text_query {
                Some(q) => Some(q@),
                None => None,
            },
        ),
        value_views(r.1@) == search_values(
            match form_id_query {
                Some(q) => Some(q@),
                None => None,
            },
            match text_query {
                Some(q) => Some(q@),
                None => None,
            },
            limit,
        ),
{
    let by_form = is_asked(form_id_query);
    let by_text = is_asked(text_query);
    let mut sql = String::from_str(
        "SELECT form_id, record_type, subrecord_type, \"index\", text, source_mod, load_order_pos, extracted_at FROM coverage_entries",
    );
    let mut values: Vec<SqlValue> = Vec::new();
    let ghost head = sql@;
    if by_form && by_text {
        sql.append(" WHERE LOWER(form_id) LIKE ? AND LOWER(text) LIKE ?");
    } else if by_form {
        sql.append(" WHERE LOWER(form_id) LIKE ?");
    } else if by_text {
        sql.append(" WHERE LOWER(text) LIKE ?");
    } else {
        assert(head + Seq::<char>::empty() =~= head);
    }
    if by_form {
        match form_id_query {
            Some(q) => {
                values.push(SqlValue::Text(like_pattern(q)));
            },
            None => {},
        }
    }
    if by_text {
        match text_query {
            Some(q) => {
                values.push(SqlValue::Text(like_pattern(q)));
                let lowered = q.to_lowercase();
                let mut prefix = q.to_lowercase();
                prefix.append("%");
                values.push(SqlValue::Text(lowered));
                values.push(SqlValue::Text(prefix));
                values.push(SqlValue::Text(like_pattern(q)));
            },
            None => {},
        }
        sql.append(
            " ORDER BY CASE WHEN LOWER(text) = ? THEN 4 WHEN LOWER(text) LIKE ? THEN 3 WHEN LOWER(text) LIKE ? THEN 2 ELSE 1 END DESC, load_order_pos DESC, extracted_at DESC LIMIT ?",
        );
    } else {
        sql.append(" ORDER BY extracted_at DESC LIMIT ?");
    }
    values.push(SqlValue::Integer(limit as i64));
    assert(value_views(values@) =~= search_values(
        match form_id_query {
            Some(q) => Some(q@),
            None => None,
        },
        match text_query {
            Some(q) => Some(q@),
            None => None,
        },
        limit,
    ));
    (sql, values)
}

} // verus!
