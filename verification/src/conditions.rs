//! What each condition of a statement adds to its text and to its values.

use vstd::prelude::*;

use crate::selection::positions;
use crate::sql::{
    camera_pieces, faces_pieces, id_list_pieces, known_pieces, media_by_ids_pieces,
    media_paths_sql_text, media_select, name_filters, page_of, page_pieces, path_filter,
    person_pieces, query_pieces, radius_pieces, search_pieces, set_positions, sql_escaped, sql_text,
    sql_values, state_pieces, vectors_pieces, SearchFilter, SqlPiece, SqlValue,
};
use crate::text;

verus! {

broadcast proof fn lemma_text_of_push(s: Seq<SqlPiece>, p: SqlPiece)
    ensures
        #[trigger] sql_text(s.push(p)) == sql_text(s) + match p {
            SqlPiece::Text(t) => t,
            SqlPiece::Bind(_) => "?"@,
        },
{
    assert(s.push(p).drop_last() =~= s);
}

broadcast proof fn lemma_values_of_push(s: Seq<SqlPiece>, p: SqlPiece)
    ensures
        #[trigger] sql_values(s.push(p)) == match p {
            SqlPiece::Text(_) => sql_values(s),
            SqlPiece::Bind(v) => sql_values(s).push(v),
        },
{
    assert(s.push(p).drop_last() =~= s);
}

proof fn lemma_pieces_join(a: Seq<SqlPiece>, b: Seq<SqlPiece>)
    ensures
        sql_text(a + b) == sql_text(a) + sql_text(b),
        sql_values(a + b) == sql_values(a) + sql_values(b),
    decreases b.len(),
{
    if b.len() == 0 {
        assert(a + b =~= a);
        assert(sql_text(a) + sql_text(b) =~= sql_text(a));
        assert(sql_values(a) + sql_values(b) =~= sql_values(a));
    } else {
        lemma_pieces_join(a, b.drop_last());
        assert((a + b).drop_last() =~= a + b.drop_last());
        assert(sql_text(a + b) =~= sql_text(a) + sql_text(b));
        assert(sql_values(a + b) =~= sql_values(a) + sql_values(b));
    }
}

/// Whether `part` stands somewhere in `whole`.
pub open spec fn holds_text(whole: Seq<char>, part: Seq<char>) -> bool {
    exists|a: Seq<char>, b: Seq<char>| whole == #[trigger] ((a + part) + b)
}

/// Whether `with` is `without` and, at one place, a condition of this text with these values.
pub open spec fn adds(
    with: Seq<SqlPiece>,
    without: Seq<SqlPiece>,
    condition: Seq<char>,
    values: Seq<SqlValue>,
) -> bool {
    exists|a: Seq<SqlPiece>, extra: Seq<SqlPiece>, b: Seq<SqlPiece>|
        with == #[trigger] ((a + extra) + b) && without == a + b && sql_text(extra) == condition
            && sql_values(extra) == values
}

/// A condition that is added stands in the text, and its values are bound; what stood there
/// stays, in front of it and behind it.
pub proof fn added_condition_is_bound(
    with: Seq<SqlPiece>,
    without: Seq<SqlPiece>,
    condition: Seq<char>,
    values: Seq<SqlValue>,
)
    requires
        adds(with, without, condition, values),
    ensures
        holds_text(sql_text(with), condition),
        forall|v: SqlValue| #[trigger] values.contains(v) ==> sql_values(with).contains(v),
        forall|v: SqlValue|
            #[trigger] sql_values(without).contains(v) ==> sql_values(with).contains(v),
        sql_text(with).len() == sql_text(without).len() + condition.len(),
        sql_values(with).len() == sql_values(without).len() + values.len(),
{
    let (a, extra, b) = choose|a: Seq<SqlPiece>, extra: Seq<SqlPiece>, b: Seq<SqlPiece>|
        with == #[trigger] ((a + extra) + b) && without == a + b && sql_text(extra) == condition
            && sql_values(extra) == values;
    lemma_pieces_join(a + extra, b);
    lemma_pieces_join(a, extra);
    lemma_pieces_join(a, b);
    assert(sql_text(with) == (sql_text(a) + condition) + sql_text(b));
    let w = sql_values(with);
    let o = sql_values(without);
    assert forall|v: SqlValue| #[trigger] values.contains(v) implies w.contains(v) by {
        let i = choose|i: int| 0 <= i < values.len() && values[i] == v;
        assert(w[sql_values(a).len() + i] == v);
    }
    assert forall|v: SqlValue| #[trigger] o.contains(v) implies w.contains(v) by {
        let i = choose|i: int| 0 <= i < o.len() && o[i] == v;
        let n = sql_values(a).len();
        if i < n {
            assert(w[i] == v);
        } else {
            assert(w[i + values.len()] == v);
        }
    }
}

proof fn lemma_adds(
    with: Seq<SqlPiece>,
    without: Seq<SqlPiece>,
    a: Seq<SqlPiece>,
    extra: Seq<SqlPiece>,
    b: Seq<SqlPiece>,
)
    requires
        with =~= (a + extra) + b,
        without =~= a + b,
    ensures
        adds(with, without, sql_text(extra), sql_values(extra)),
{
}

/// A search of one model reads what the search of all models reads, and then asks for the
/// model: the statement of all is a prefix of the other, and only the model is bound.
pub proof fn model_only_narrows_the_vectors(model: Seq<char>)
    ensures
        sql_text(vectors_pieces(Some(model))) == sql_text(vectors_pieces(None)) + " AND e.model=?"@,
        sql_values(vectors_pieces(None)) == Seq::<SqlValue>::empty(),
        sql_values(vectors_pieces(Some(model))) == seq![SqlValue::Text(model)],
        sql_text(vectors_pieces(None))
            == "SELECT e.id,e.media_item_id,e.vector FROM embeddings e JOIN media_items ON media_items.id=e.media_item_id WHERE e.media_item_id IS NOT NULL"@
            + path_filter(),
{
    broadcast use {lemma_text_of_push, lemma_values_of_push};

    let all = vectors_pieces(None);
    let none = Seq::<SqlPiece>::empty();
    let head = none.push(
        SqlPiece::Text(
            "SELECT e.id,e.media_item_id,e.vector FROM embeddings e JOIN media_items ON media_items.id=e.media_item_id WHERE e.media_item_id IS NOT NULL"@,
        ),
    ).push(SqlPiece::Text(path_filter()));
    let extra = none.push(SqlPiece::Text(" AND e.model="@)).push(
        SqlPiece::Bind(SqlValue::Text(model)),
    );
    assert(all =~= head);
    assert(vectors_pieces(Some(model)) =~= all + extra);
    lemma_pieces_join(all, extra);
    reveal_strlit(" AND e.model=?");
    reveal_strlit(" AND e.model=");
    reveal_strlit("?");
    assert(sql_text(extra) =~= " AND e.model=?"@);
    assert(sql_values(extra) =~= seq![SqlValue::Text(model)]);
    assert(sql_values(all) =~= Seq::empty());
    assert(Seq::<SqlValue>::empty() + sql_values(extra) =~= sql_values(extra));
    assert(sql_text(all) =~=
        "SELECT e.id,e.media_item_id,e.vector FROM embeddings e JOIN media_items ON media_items.id=e.media_item_id WHERE e.media_item_id IS NOT NULL"@
        + path_filter());
}

/// Each condition on faces is asked for by itself: it adds its own text and its own value at the
/// end of the statement without it, or in front of the other condition.
pub proof fn face_conditions_are_independent(
    media_item_id: i64,
    person_id: i64,
    p: Option<i64>,
    m: Option<i64>,
)
    ensures
        adds(
            faces_pieces(Some(media_item_id), p),
            faces_pieces(None, p),
            " AND f.media_item_id="@ + "?"@,
            seq![SqlValue::Integer(media_item_id as int)],
        ),
        adds(
            faces_pieces(m, Some(person_id)),
            faces_pieces(m, None),
            " AND f.person_id="@ + "?"@,
            seq![SqlValue::Integer(person_id as int)],
        ),
        sql_values(faces_pieces(None, None)) == Seq::<SqlValue>::empty(),
{
    broadcast use {lemma_text_of_push, lemma_values_of_push};

    let head = faces_pieces(None, None);
    let none = Seq::<SqlPiece>::empty();
    let media = none.push(SqlPiece::Text(" AND f.media_item_id="@)).push(
        SqlPiece::Bind(SqlValue::Integer(media_item_id as int)),
    );
    let person = none.push(SqlPiece::Text(" AND f.person_id="@)).push(
        SqlPiece::Bind(SqlValue::Integer(person_id as int)),
    );
    let tail = match p {
        Some(x) => seq![
            SqlPiece::Text(" AND f.person_id="@),
            SqlPiece::Bind(SqlValue::Integer(x as int)),
        ],
        None => Seq::empty(),
    };
    lemma_adds(faces_pieces(Some(media_item_id), p), faces_pieces(None, p), head, media, tail);
    lemma_adds(
        faces_pieces(m, Some(person_id)),
        faces_pieces(m, None),
        faces_pieces(m, None),
        person,
        Seq::empty(),
    );
    assert(sql_text(media) =~= " AND f.media_item_id="@ + "?"@);
    assert(sql_text(person) =~= " AND f.person_id="@ + "?"@);
    assert(sql_values(media) =~= seq![SqlValue::Integer(media_item_id as int)]);
    assert(sql_values(person) =~= seq![SqlValue::Integer(person_id as int)]);
    assert(sql_values(head) =~= Seq::empty()) by {
        assert(head =~= Seq::empty().push(head[0]));
        assert(sql_values(Seq::<SqlPiece>::empty()) =~= Seq::empty());
    }
}

proof fn lemma_in_front(
    a: Seq<SqlPiece>,
    x: Seq<SqlPiece>,
    y: Seq<SqlPiece>,
    condition: Seq<char>,
    values: Seq<SqlValue>,
)
    requires
        adds(x, y, condition, values),
    ensures
        adds(a + x, a + y, condition, values),
{
    let (l, extra, r) = choose|l: Seq<SqlPiece>, extra: Seq<SqlPiece>, r: Seq<SqlPiece>|
        x == #[trigger] ((l + extra) + r) && y == l + r && sql_text(extra) == condition
            && sql_values(extra) == values;
    assert(a + x =~= ((a + l) + extra) + r);
    assert(a + y =~= (a + l) + r);
}

proof fn lemma_behind(
    x: Seq<SqlPiece>,
    y: Seq<SqlPiece>,
    b: Seq<SqlPiece>,
    condition: Seq<char>,
    values: Seq<SqlValue>,
)
    requires
        adds(x, y, condition, values),
    ensures
        adds(x + b, y + b, condition, values),
{
    let (l, extra, r) = choose|l: Seq<SqlPiece>, extra: Seq<SqlPiece>, r: Seq<SqlPiece>|
        x == #[trigger] ((l + extra) + r) && y == l + r && sql_text(extra) == condition
            && sql_values(extra) == values;
    assert(x + b =~= (l + extra) + (r + b));
    assert(y + b =~= l + (r + b));
}

spec fn group_of(f: SearchFilter, k: int) -> Seq<SqlPiece> {
    if k == 0 {
        seq![
            SqlPiece::Text(media_select()),
            SqlPiece::Text(" WHERE 1=1"@),
            SqlPiece::Text(path_filter()),
        ]
    } else if k == 1 {
        person_pieces(f)
    } else if k == 2 {
        query_pieces(f)
    } else if k == 3 {
        state_pieces(f)
    } else if k == 4 {
        camera_pieces(f)
    } else if k == 5 {
        known_pieces(f)
    } else if k == 6 {
        radius_pieces(f)
    } else {
        page_pieces(f)
    }
}

spec fn first_groups(f: SearchFilter, n: nat) -> Seq<SqlPiece>
    decreases n,
{
    if n == 0 {
        group_of(f, 0)
    } else {
        first_groups(f, (n - 1) as nat) + group_of(f, n as int)
    }
}

proof fn lemma_first_groups(
    f: SearchFilter,
    g: SearchFilter,
    k: int,
    n: nat,
    condition: Seq<char>,
    values: Seq<SqlValue>,
)
    requires
        1 <= k,
        forall|j: int| 0 <= j && j != k ==> #[trigger] group_of(f, j) == group_of(g, j),
        adds(group_of(f, k), group_of(g, k), condition, values),
    ensures
        n < k ==> first_groups(f, n) == first_groups(g, n),
        n >= k ==> adds(first_groups(f, n), first_groups(g, n), condition, values),
    decreases n,
{
    if n == 0 {
        assert(group_of(f, 0) == group_of(g, 0));
    } else {
        let m = (n - 1) as nat;
        lemma_first_groups(f, g, k, m, condition, values);
        assert(n != k ==> group_of(f, n as int) == group_of(g, n as int));
        if n == k {
            lemma_in_front(
                first_groups(f, m),
                group_of(f, k),
                group_of(g, k),
                condition,
                values,
            );
        } else if n > k {
            lemma_behind(
                first_groups(f, m),
                first_groups(g, m),
                group_of(f, n as int),
                condition,
                values,
            );
        }
    }
}

proof fn lemma_search_groups(f: SearchFilter)
    ensures
        search_pieces(f) == first_groups(f, 7),
{
    reveal_with_fuel(first_groups, 8);
}

proof fn lemma_lift(
    f: SearchFilter,
    g: SearchFilter,
    k: int,
    condition: Seq<char>,
    values: Seq<SqlValue>,
)
    requires
        1 <= k <= 7,
        forall|j: int| 0 <= j && j != k ==> #[trigger] group_of(f, j) == group_of(g, j),
        adds(group_of(f, k), group_of(g, k), condition, values),
    ensures
        adds(search_pieces(f), search_pieces(g), condition, values),
{
    lemma_first_groups(f, g, k, 7, condition, values);
    lemma_search_groups(f);
    lemma_search_groups(g);
}

/// A person asked for by id, by name or by both adds one condition, which binds all that is asked:
/// the id, and the trimmed name between two `%`.
pub proof fn person_is_asked_for(f: SearchFilter)
    ensures
        ({
            let g = SearchFilter { person_id: None, person_name: None, ..f };
            match (f.person_id, f.person_name) {
                (Some(id), None) => adds(
                    search_pieces(f),
                    search_pieces(g),
                    " AND media_items.id IN (SELECT DISTINCT f.media_item_id FROM faces f"@
                        + " WHERE 1=1"@ + " AND f.person_id="@ + "?"@ + ")"@,
                    seq![SqlValue::Integer(id as int)],
                ),
                (None, Some(n)) => adds(
                    search_pieces(f),
                    search_pieces(g),
                    " AND media_items.id IN (SELECT DISTINCT f.media_item_id FROM faces f"@
                        + " JOIN people p ON p.id=f.person_id"@ + " WHERE 1=1"@
                        + " AND p.name LIKE "@ + "?"@ + " COLLATE NOCASE"@ + ")"@,
                    seq![SqlValue::Text("%"@ + text::trimmed(n@) + "%"@)],
                ),
                (Some(id), Some(n)) => adds(
                    search_pieces(f),
                    search_pieces(g),
                    " AND media_items.id IN (SELECT DISTINCT f.media_item_id FROM faces f"@
                        + " JOIN people p ON p.id=f.person_id"@ + " WHERE 1=1"@
                        + " AND f.person_id="@ + "?"@ + " AND p.name LIKE "@ + "?"@
                        + " COLLATE NOCASE"@ + ")"@,
                    seq![
                        SqlValue::Integer(id as int),
                        SqlValue::Text("%"@ + text::trimmed(n@) + "%"@),
                    ],
                ),
                _ => true,
            }
        }),
{
    broadcast use {lemma_text_of_push, lemma_values_of_push};

    let none = Seq::<SqlPiece>::empty();
    let g = SearchFilter { person_id: None, person_name: None, ..f };
    match (f.person_id, f.person_name) {
        (Some(id), None) => {
            let extra = none
                .push(SqlPiece::Text(" AND media_items.id IN (SELECT DISTINCT f.media_item_id FROM faces f"@))
                .push(SqlPiece::Text(" WHERE 1=1"@))
                .push(SqlPiece::Text(" AND f.person_id="@))
                .push(SqlPiece::Bind(SqlValue::Integer(id as int)))
                .push(SqlPiece::Text(")"@));
            lemma_adds(person_pieces(f), person_pieces(g), none, extra, none);
            assert(sql_text(extra) =~= " AND media_items.id IN (SELECT DISTINCT f.media_item_id FROM faces f"@
                + " WHERE 1=1"@ + " AND f.person_id="@ + "?"@ + ")"@);
            assert(sql_values(extra) =~= seq![SqlValue::Integer(id as int)]);
            lemma_lift(f, g, 1, sql_text(extra), sql_values(extra));
        },
        (None, Some(n)) => {
            let extra = none
                .push(SqlPiece::Text(" AND media_items.id IN (SELECT DISTINCT f.media_item_id FROM faces f"@))
                .push(SqlPiece::Text(" JOIN people p ON p.id=f.person_id"@))
                .push(SqlPiece::Text(" WHERE 1=1"@))
                .push(SqlPiece::Text(" AND p.name LIKE "@))
                .push(SqlPiece::Bind(SqlValue::Text("%"@ + text::trimmed(n@) + "%"@)))
                .push(SqlPiece::Text(" COLLATE NOCASE"@))
                .push(SqlPiece::Text(")"@));
            lemma_adds(person_pieces(f), person_pieces(g), none, extra, none);
            assert(sql_text(extra) =~= " AND media_items.id IN (SELECT DISTINCT f.media_item_id FROM faces f"@
                + " JOIN people p ON p.id=f.person_id"@ + " WHERE 1=1"@ + " AND p.name LIKE "@
                + "?"@ + " COLLATE NOCASE"@ + ")"@);
            assert(sql_values(extra) =~= seq![SqlValue::Text("%"@ + text::trimmed(n@) + "%"@)]);
            lemma_lift(f, g, 1, sql_text(extra), sql_values(extra));
        },
        (Some(id), Some(n)) => {
            let extra = none
                .push(SqlPiece::Text(" AND media_items.id IN (SELECT DISTINCT f.media_item_id FROM faces f"@))
                .push(SqlPiece::Text(" JOIN people p ON p.id=f.person_id"@))
                .push(SqlPiece::Text(" WHERE 1=1"@))
                .push(SqlPiece::Text(" AND f.person_id="@))
                .push(SqlPiece::Bind(SqlValue::Integer(id as int)))
                .push(SqlPiece::Text(" AND p.name LIKE "@))
                .push(SqlPiece::Bind(SqlValue::Text("%"@ + text::trimmed(n@) + "%"@)))
                .push(SqlPiece::Text(" COLLATE NOCASE"@))
                .push(SqlPiece::Text(")"@));
            lemma_adds(person_pieces(f), person_pieces(g), none, extra, none);
            assert(sql_text(extra) =~= " AND media_items.id IN (SELECT DISTINCT f.media_item_id FROM faces f"@
                + " JOIN people p ON p.id=f.person_id"@ + " WHERE 1=1"@ + " AND f.person_id="@
                + "?"@ + " AND p.name LIKE "@ + "?"@ + " COLLATE NOCASE"@ + ")"@);
            assert(sql_values(extra) =~= seq![
                SqlValue::Integer(id as int),
                SqlValue::Text("%"@ + text::trimmed(n@) + "%"@),
            ]);
            lemma_lift(f, g, 1, sql_text(extra), sql_values(extra));
        },
        _ => {},
    }
}

/// A kind of media that is asked for is bound as it was given.
pub proof fn kind_is_asked_for(f: SearchFilter)
    ensures
        ({
            let g = SearchFilter { media_type: None, ..f };
            match f.media_type {
                Some(x) => adds(
                    search_pieces(f),
                    search_pieces(g),
                    " AND media_type="@ + "?"@,
                    seq![SqlValue::Text(x@)],
                ),
                _ => true,
            }
        }),
{
    broadcast use {lemma_text_of_push, lemma_values_of_push};

    let none = Seq::<SqlPiece>::empty();
    let g = SearchFilter { media_type: None, ..f };
    match f.media_type {
        Some(x) => {
            let extra = none
                .push(SqlPiece::Text(" AND media_type="@))
                .push(SqlPiece::Bind(SqlValue::Text(x@)));
            lemma_adds(
                state_pieces(f),
                state_pieces(g),
                none,
                extra,
                state_pieces(SearchFilter { media_type: None, ..f }),
            );
            assert(sql_text(extra) =~= " AND media_type="@ + "?"@);
            assert(sql_values(extra) =~= seq![SqlValue::Text(x@)]);
            lemma_lift(f, g, 3, sql_text(extra), sql_values(extra));
        },
        _ => {},
    }
}

/// Missing items are asked for by 1, present ones by 0.
pub proof fn presence_is_asked_for(f: SearchFilter)
    ensures
        ({
            let g = SearchFilter { missing: None, ..f };
            match f.missing {
                Some(true) => adds(
                    search_pieces(f),
                    search_pieces(g),
                    " AND missing="@ + "?"@,
                    seq![SqlValue::Integer(1)],
                ),
                Some(false) => adds(
                    search_pieces(f),
                    search_pieces(g),
                    " AND missing="@ + "?"@,
                    seq![SqlValue::Integer(0)],
                ),
                _ => true,
            }
        }),
{
    broadcast use {lemma_text_of_push, lemma_values_of_push};

    let none = Seq::<SqlPiece>::empty();
    let g = SearchFilter { missing: None, ..f };
    match f.missing {
        Some(true) => {
            let extra = none
                .push(SqlPiece::Text(" AND missing="@))
                .push(SqlPiece::Bind(SqlValue::Integer(1)));
            lemma_adds(
                state_pieces(f),
                state_pieces(g),
                state_pieces(SearchFilter { missing: None, from_ts: None, to_ts: None, ..f }),
                extra,
                state_pieces(SearchFilter { media_type: None, missing: None, ..f }),
            );
            assert(sql_text(extra) =~= " AND missing="@ + "?"@);
            assert(sql_values(extra) =~= seq![SqlValue::Integer(1)]);
            lemma_lift(f, g, 3, sql_text(extra), sql_values(extra));
        },
        Some(false) => {
            let extra = none
                .push(SqlPiece::Text(" AND missing="@))
                .push(SqlPiece::Bind(SqlValue::Integer(0)));
            lemma_adds(
                state_pieces(f),
                state_pieces(g),
                state_pieces(SearchFilter { missing: None, from_ts: None, to_ts: None, ..f }),
                extra,
                state_pieces(SearchFilter { media_type: None, missing: None, ..f }),
            );
            assert(sql_text(extra) =~= " AND missing="@ + "?"@);
            assert(sql_values(extra) =~= seq![SqlValue::Integer(0)]);
            lemma_lift(f, g, 3, sql_text(extra), sql_values(extra));
        },
        _ => {},
    }
}

/// The earliest date bounds the date of an item from below.
pub proof fn earliest_date_is_asked_for(f: SearchFilter)
    ensures
        ({
            let g = SearchFilter { from_ts: None, ..f };
            match f.from_ts {
                Some(x) => adds(
                    search_pieces(f),
                    search_pieces(g),
                    " AND COALESCE(captured_at,modified_at,created_at)>="@ + "?"@,
                    seq![SqlValue::Integer(x as int)],
                ),
                _ => true,
            }
        }),
{
    broadcast use {lemma_text_of_push, lemma_values_of_push};

    let none = Seq::<SqlPiece>::empty();
    let g = SearchFilter { from_ts: None, ..f };
    match f.from_ts {
        Some(x) => {
            let extra = none
                .push(SqlPiece::Text(" AND COALESCE(captured_at,modified_at,created_at)>="@))
                .push(SqlPiece::Bind(SqlValue::Integer(x as int)));
            lemma_adds(
                state_pieces(f),
                state_pieces(g),
                state_pieces(SearchFilter { from_ts: None, to_ts: None, ..f }),
                extra,
                state_pieces(SearchFilter { media_type: None, missing: None, from_ts: None, ..f }),
            );
            assert(sql_text(extra) =~= " AND COALESCE(captured_at,modified_at,created_at)>="@
                + "?"@);
            assert(sql_values(extra) =~= seq![SqlValue::Integer(x as int)]);
            lemma_lift(f, g, 3, sql_text(extra), sql_values(extra));
        },
        _ => {},
    }
}

/// The latest date bounds the date of an item from above.
pub proof fn latest_date_is_asked_for(f: SearchFilter)
    ensures
        ({
            let g = SearchFilter { to_ts: None, ..f };
            match f.to_ts {
                Some(x) => adds(
                    search_pieces(f),
                    search_pieces(g),
                    " AND COALESCE(captured_at,modified_at,created_at)<="@ + "?"@,
                    seq![SqlValue::Integer(x as int)],
                ),
                _ => true,
            }
        }),
{
    broadcast use {lemma_text_of_push, lemma_values_of_push};

    let none = Seq::<SqlPiece>::empty();
    let g = SearchFilter { to_ts: None, ..f };
    match f.to_ts {
        Some(x) => {
            let extra = none
                .push(SqlPiece::Text(" AND COALESCE(captured_at,modified_at,created_at)<="@))
                .push(SqlPiece::Bind(SqlValue::Integer(x as int)));
            lemma_adds(
                state_pieces(f),
                state_pieces(g),
                state_pieces(SearchFilter { to_ts: None, ..f }),
                extra,
                none,
            );
            assert(sql_text(extra) =~= " AND COALESCE(captured_at,modified_at,created_at)<="@
                + "?"@);
            assert(sql_values(extra) =~= seq![SqlValue::Integer(x as int)]);
            lemma_lift(f, g, 3, sql_text(extra), sql_values(extra));
        },
        _ => {},
    }
}

/// A camera is looked for in make and model together and in the model alone, as it was given,
/// between two `%`.
pub proof fn camera_is_asked_for(f: SearchFilter)
    ensures
        ({
            let g = SearchFilter { camera: None, ..f };
            match f.camera {
                Some(c) => adds(
                    search_pieces(f),
                    search_pieces(g),
                    " AND ((camera_make||' '||camera_model) LIKE "@ + "?"@
                        + " OR camera_model LIKE "@ + "?"@ + ")"@,
                    seq![SqlValue::Text("%"@ + c@ + "%"@), SqlValue::Text("%"@ + c@ + "%"@)],
                ),
                _ => true,
            }
        }),
{
    broadcast use {lemma_text_of_push, lemma_values_of_push};

    let none = Seq::<SqlPiece>::empty();
    let g = SearchFilter { camera: None, ..f };
    match f.camera {
        Some(c) => {
            let extra = none
                .push(SqlPiece::Text(" AND ((camera_make||' '||camera_model) LIKE "@))
                .push(SqlPiece::Bind(SqlValue::Text("%"@ + c@ + "%"@)))
                .push(SqlPiece::Text(" OR camera_model LIKE "@))
                .push(SqlPiece::Bind(SqlValue::Text("%"@ + c@ + "%"@)))
                .push(SqlPiece::Text(")"@));
            lemma_adds(camera_pieces(f), camera_pieces(g), none, extra, none);
            assert(sql_text(extra) =~= " AND ((camera_make||' '||camera_model) LIKE "@ + "?"@
                + " OR camera_model LIKE "@ + "?"@ + ")"@);
            assert(sql_values(extra) =~= seq![
                SqlValue::Text("%"@ + c@ + "%"@),
                SqlValue::Text("%"@ + c@ + "%"@),
            ]);
            lemma_lift(f, g, 4, sql_text(extra), sql_values(extra));
        },
        _ => {},
    }
}

/// A known position means both coordinates; it is unknown where either is missing.
pub proof fn known_position_is_asked_for(f: SearchFilter)
    ensures
        ({
            let g = SearchFilter { has_gps: None, ..f };
            match f.has_gps {
                Some(true) => adds(
                    search_pieces(f),
                    search_pieces(g),
                    " AND latitude IS NOT NULL AND longitude IS NOT NULL"@,
                    Seq::empty(),
                ),
                Some(false) => adds(
                    search_pieces(f),
                    search_pieces(g),
                    " AND (latitude IS NULL OR longitude IS NULL)"@,
                    Seq::empty(),
                ),
                _ => true,
            }
        }),
{
    broadcast use {lemma_text_of_push, lemma_values_of_push};

    let none = Seq::<SqlPiece>::empty();
    let g = SearchFilter { has_gps: None, ..f };
    match f.has_gps {
        Some(true) => {
            let extra = none
                .push(SqlPiece::Text(" AND latitude IS NOT NULL AND longitude IS NOT NULL"@));
            lemma_adds(
                known_pieces(f),
                known_pieces(g),
                none,
                extra,
                known_pieces(SearchFilter { has_gps: None, ..f }),
            );
            assert(sql_text(extra) =~= " AND latitude IS NOT NULL AND longitude IS NOT NULL"@);
            assert(sql_values(extra) =~= Seq::empty());
            lemma_lift(f, g, 5, sql_text(extra), sql_values(extra));
        },
        Some(false) => {
            let extra = none.push(SqlPiece::Text(" AND (latitude IS NULL OR longitude IS NULL)"@));
            lemma_adds(
                known_pieces(f),
                known_pieces(g),
                none,
                extra,
                known_pieces(SearchFilter { has_gps: None, ..f }),
            );
            assert(sql_text(extra) =~= " AND (latitude IS NULL OR longitude IS NULL)"@);
            assert(sql_values(extra) =~= Seq::empty());
            lemma_lift(f, g, 5, sql_text(extra), sql_values(extra));
        },
        _ => {},
    }
}

/// A known camera means make or model; it is unknown where both are missing.
pub proof fn known_camera_is_asked_for(f: SearchFilter)
    ensures
        ({
            let g = SearchFilter { has_camera: None, ..f };
            match f.has_camera {
                Some(true) => adds(
                    search_pieces(f),
                    search_pieces(g),
                    " AND (camera_make IS NOT NULL OR camera_model IS NOT NULL)"@,
                    Seq::empty(),
                ),
                Some(false) => adds(
                    search_pieces(f),
                    search_pieces(g),
                    " AND camera_make IS NULL AND camera_model IS NULL"@,
                    Seq::empty(),
                ),
                _ => true,
            }
        }),
{
    broadcast use {lemma_text_of_push, lemma_values_of_push};

    let none = Seq::<SqlPiece>::empty();
    let g = SearchFilter { has_camera: None, ..f };
    match f.has_camera {
        Some(true) => {
            let extra = none
                .push(SqlPiece::Text(" AND (camera_make IS NOT NULL OR camera_model IS NOT NULL)"@));
            lemma_adds(
                known_pieces(f),
                known_pieces(g),
                known_pieces(SearchFilter { has_camera: None, ..f }),
                extra,
                none,
            );
            assert(sql_text(extra) =~= " AND (camera_make IS NOT NULL OR camera_model IS NOT NULL)"@);
            assert(sql_values(extra) =~= Seq::empty());
            lemma_lift(f, g, 5, sql_text(extra), sql_values(extra));
        },
        Some(false) => {
            let extra = none
                .push(SqlPiece::Text(" AND camera_make IS NULL AND camera_model IS NULL"@));
            lemma_adds(
                known_pieces(f),
                known_pieces(g),
                known_pieces(SearchFilter { has_camera: None, ..f }),
                extra,
                none,
            );
            assert(sql_text(extra) =~= " AND camera_make IS NULL AND camera_model IS NULL"@);
            assert(sql_values(extra) =~= Seq::empty());
            lemma_lift(f, g, 5, sql_text(extra), sql_values(extra));
        },
        _ => {},
    }
}

/// A text that is looked for stands, trimmed and between two `%`, for the file name or for the
/// path; one of white space alone asks for nothing.
pub proof fn text_is_asked_for(f: SearchFilter)
    ensures
        ({
            let g = SearchFilter { query: None, ..f };
            match f.query {
                    Some(q) => if text::trimmed(q@).len() > 0 {
                        adds(
                            search_pieces(f),
                            search_pieces(g),
                            " AND (file_name LIKE "@ + "?"@ + " OR path LIKE "@ + "?"@ + ")"@,
                            seq![
                                SqlValue::Text("%"@ + text::trimmed(q@) + "%"@),
                                SqlValue::Text("%"@ + text::trimmed(q@) + "%"@),
                            ],
                        )
                    } else {
                        search_pieces(f) == search_pieces(g)
                    },
                    None => true,
            }
        }),
{
    broadcast use {lemma_text_of_push, lemma_values_of_push};

    let none = Seq::<SqlPiece>::empty();
    let g = SearchFilter { query: None, ..f };
    if let Some(q) = f.query {
        let v = SqlValue::Text("%"@ + text::trimmed(q@) + "%"@);
        if text::trimmed(q@).len() > 0 {
            let extra = none.push(SqlPiece::Text(" AND (file_name LIKE "@)).push(
                SqlPiece::Bind(v),
            ).push(SqlPiece::Text(" OR path LIKE "@)).push(SqlPiece::Bind(v)).push(
                SqlPiece::Text(")"@),
            );
            lemma_adds(query_pieces(f), query_pieces(g), none, extra, none);
            lemma_lift(f, g, 2, sql_text(extra), sql_values(extra));
            assert(sql_text(extra) =~= " AND (file_name LIKE "@ + "?"@ + " OR path LIKE "@ + "?"@
                + ")"@);
            assert(sql_values(extra) =~= seq![v, v]);
        } else {
            assert(search_pieces(f) =~= search_pieces(g));
        }
    }
}

proof fn lemma_holds_inner(whole: Seq<char>, middle: Seq<char>, part: Seq<char>)
    requires
        holds_text(whole, middle),
        holds_text(middle, part),
    ensures
        holds_text(whole, part),
{
    let (a, b) = choose|a: Seq<char>, b: Seq<char>| whole == #[trigger] ((a + middle) + b);
    let (c, d) = choose|c: Seq<char>, d: Seq<char>| middle == #[trigger] ((c + part) + d);
    assert(whole =~= ((a + c) + part) + (d + b));
}

/// Whoever is asked for by name is asked for, whatever else is: the name is bound between two
/// `%`, and the text compares it with the names of the people.
pub proof fn name_is_always_bound(f: SearchFilter)
    requires
        f.person_name is Some,
    ensures
        sql_values(search_pieces(f)).contains(
            SqlValue::Text("%"@ + text::trimmed(f.person_name->0@) + "%"@),
        ),
        holds_text(sql_text(search_pieces(f)), " AND p.name LIKE "@ + "?"@),
{
    let n = f.person_name->0;
    let g = SearchFilter { person_id: None, person_name: None, ..f };
    person_is_asked_for(f);
    let name = SqlValue::Text("%"@ + text::trimmed(n@) + "%"@);
    let start = " AND media_items.id IN (SELECT DISTINCT f.media_item_id FROM faces f"@
        + " JOIN people p ON p.id=f.person_id"@ + " WHERE 1=1"@;
    let end = " COLLATE NOCASE"@ + ")"@;
    let part = " AND p.name LIKE "@ + "?"@;
    match f.person_id {
        Some(id) => {
            let condition = start + " AND f.person_id="@ + "?"@ + " AND p.name LIKE "@ + "?"@
                + " COLLATE NOCASE"@ + ")"@;
            let values = seq![SqlValue::Integer(id as int), name];
            added_condition_is_bound(search_pieces(f), search_pieces(g), condition, values);
            assert(values[1] == name);
            assert(values.contains(name));
            assert(condition =~= ((start + " AND f.person_id="@ + "?"@) + part) + end);
            lemma_holds_inner(sql_text(search_pieces(f)), condition, part);
        },
        None => {
            let condition = start + " AND p.name LIKE "@ + "?"@ + " COLLATE NOCASE"@ + ")"@;
            let values = seq![name];
            added_condition_is_bound(search_pieces(f), search_pieces(g), condition, values);
            assert(values[0] == name);
            assert(values.contains(name));
            assert(condition =~= (start + part) + end);
            lemma_holds_inner(sql_text(search_pieces(f)), condition, part);
        },
    }
}

/// Whether `n` is the number of items that a search with this limit returns at most: a hundred
/// unless asked otherwise, at least one and at most five hundred.
pub open spec fn is_search_limit(limit: Option<i64>, n: int) -> bool {
    &&& limit is None ==> n == 100
    &&& limit matches Some(x) ==> {
        &&& x < 1 ==> n == 1
        &&& 1 <= x <= 500 ==> n == x
        &&& 500 < x ==> n == 500
    }
}

/// Whether `n` is the number of items that a search with this offset passes over.
pub open spec fn is_search_offset(offset: Option<i64>, n: int) -> bool {
    &&& offset is None ==> n == 0
    &&& offset matches Some(x) ==> {
        &&& x < 0 ==> n == 0
        &&& 0 <= x ==> n == x
    }
}

/// Whether `t` orders the items by date and then by id: ascending where `asc` is asked for in
/// any case, else descending.
pub open spec fn is_order_text(order: Option<String>, t: Seq<char>) -> bool {
    let by = |dir: Seq<char>|
        " ORDER BY COALESCE(captured_at,modified_at,created_at) "@ + dir + ",id "@ + dir;
    &&& order is None ==> t == by("DESC"@)
    &&& order matches Some(o) ==> {
        &&& text::lower(o@) == "asc"@ ==> t == by("ASC"@)
        &&& text::lower(o@) != "asc"@ ==> t == by("DESC"@)
    }
}

/// A search without conditions lists the catalog, except for excluded paths, in the order and on
/// the page that is asked for.
pub proof fn search_without_conditions_lists_the_catalog(f: SearchFilter)
    requires
        f.query is None && f.media_type is None && f.missing is None,
        f.from_ts is None && f.to_ts is None && f.camera is None && f.radius is None,
        f.person_id is None && f.person_name is None,
        f.has_gps is None && f.has_camera is None,
    ensures
        exists|order: Seq<char>, limit: int, offset: int|
            {
                &&& is_order_text(f.sort_order, order)
                &&& is_search_limit(f.limit, limit)
                &&& is_search_offset(f.offset, offset)
                &&& sql_values(search_pieces(f)) == #[trigger] pair_of(limit, offset)
                &&& sql_text(search_pieces(f)) == #[trigger] (media_select() + " WHERE 1=1"@
                    + path_filter() + order + " LIMIT "@ + "?"@ + " OFFSET "@ + "?"@)
            },
{
    broadcast use {lemma_text_of_push, lemma_values_of_push};

    lemma_asc();
    let none = Seq::<SqlPiece>::empty();
    let dir = crate::sql::sort_direction(crate::paths::opt_view(f.sort_order));
    let limit = crate::sql::search_limit(f.limit);
    let offset = crate::sql::search_offset(f.offset);
    let head = none.push(SqlPiece::Text(media_select())).push(SqlPiece::Text(" WHERE 1=1"@)).push(
        SqlPiece::Text(path_filter()),
    );
    let by = " ORDER BY COALESCE(captured_at,modified_at,created_at) "@;
    let tail = none.push(SqlPiece::Text(by)).push(SqlPiece::Text(dir)).push(
        SqlPiece::Text(",id "@),
    ).push(SqlPiece::Text(dir)).push(SqlPiece::Text(" LIMIT "@)).push(
        SqlPiece::Bind(SqlValue::Integer(limit)),
    ).push(SqlPiece::Text(" OFFSET "@)).push(SqlPiece::Bind(SqlValue::Integer(offset)));
    assert(group_of(f, 0) =~= head);
    assert(page_pieces(f) =~= tail);
    assert(person_pieces(f) =~= none);
    assert(query_pieces(f) =~= none);
    assert(state_pieces(f) =~= none);
    assert(camera_pieces(f) =~= none);
    assert(known_pieces(f) =~= none);
    assert(radius_pieces(f) =~= none);
    assert(search_pieces(f) =~= head + tail);
    lemma_pieces_join(head, tail);
    let order = by + dir + ",id "@ + dir;
    assert(sql_text(head + tail) =~= media_select() + " WHERE 1=1"@ + path_filter() + order
        + " LIMIT "@ + "?"@ + " OFFSET "@ + "?"@);
    assert(sql_values(head + tail) =~= pair_of(limit, offset));
}

/// Two integers to bind.
pub open spec fn pair_of(a: int, b: int) -> Seq<SqlValue> {
    seq![SqlValue::Integer(a), SqlValue::Integer(b)]
}

proof fn lemma_asc()
    ensures
        text::lower("asc"@) == "asc"@,
{
    reveal_strlit("asc");
    assert(text::lower("asc"@) =~= "asc"@);
}

/// Order, limit and offset change nothing but the end of a search without a radius: what comes
/// before is the same for all of them.
pub proof fn page_is_the_end_of_a_search(f: SearchFilter, g: SearchFilter)
    requires
        f.radius is None,
        g == (SearchFilter { sort_order: g.sort_order, limit: g.limit, offset: g.offset, ..f }),
    ensures
        exists|t: Seq<char>, v: Seq<SqlValue>| #[trigger] ends_with_page(f, t, v) && ends_with_page(g, t, v),
{
    let before = first_groups(f, 6);
    lemma_same_groups(f, g, 6);
    lemma_page_end(f);
    lemma_page_end(g);
    assert(ends_with_page(f, sql_text(before), sql_values(before)));
}

/// Whether a search is this text with these values, and then its order and its page.
pub open spec fn ends_with_page(f: SearchFilter, t: Seq<char>, v: Seq<SqlValue>) -> bool {
    exists|order: Seq<char>, limit: int, offset: int|
        {
            &&& is_order_text(f.sort_order, order)
            &&& is_search_limit(f.limit, limit)
            &&& is_search_offset(f.offset, offset)
            &&& sql_values(search_pieces(f)) == v + #[trigger] pair_of(limit, offset)
            &&& sql_text(search_pieces(f)) == #[trigger] (t + order + " LIMIT "@ + "?"@
                + " OFFSET "@ + "?"@)
        }
}

proof fn lemma_same_groups(f: SearchFilter, g: SearchFilter, n: nat)
    requires
        n <= 6,
        g == (SearchFilter { sort_order: g.sort_order, limit: g.limit, offset: g.offset, ..f }),
    ensures
        first_groups(f, n) == first_groups(g, n),
    decreases n,
{
    if n > 0 {
        lemma_same_groups(f, g, (n - 1) as nat);
    }
}

proof fn lemma_page_end(f: SearchFilter)
    requires
        f.radius is None,
    ensures
        ends_with_page(f, sql_text(first_groups(f, 6)), sql_values(first_groups(f, 6))),
{
    broadcast use {lemma_text_of_push, lemma_values_of_push};

    lemma_asc();
    let none = Seq::<SqlPiece>::empty();
    let dir = crate::sql::sort_direction(crate::paths::opt_view(f.sort_order));
    let limit = crate::sql::search_limit(f.limit);
    let offset = crate::sql::search_offset(f.offset);
    let by = " ORDER BY COALESCE(captured_at,modified_at,created_at) "@;
    let tail = none.push(SqlPiece::Text(by)).push(SqlPiece::Text(dir)).push(
        SqlPiece::Text(",id "@),
    ).push(SqlPiece::Text(dir)).push(SqlPiece::Text(" LIMIT "@)).push(
        SqlPiece::Bind(SqlValue::Integer(limit)),
    ).push(SqlPiece::Text(" OFFSET "@)).push(SqlPiece::Bind(SqlValue::Integer(offset)));
    let before = first_groups(f, 6);
    lemma_search_groups(f);
    assert(group_of(f, 7) =~= tail);
    assert(search_pieces(f) == before + tail);
    lemma_pieces_join(before, tail);
    let order = by + dir + ",id "@ + dir;
    assert(sql_text(before) + sql_text(tail) =~= sql_text(before) + order + " LIMIT "@ + "?"@
        + " OFFSET "@ + "?"@);
    assert(sql_values(tail) =~= pair_of(limit, offset));
}

/// A radius asks for a known position in the box around it, bounds the longitude where the box
/// does, and leaves the page to be cut later: it takes limit and offset out of the statement and
/// changes nothing else.
pub proof fn radius_is_asked_for(f: SearchFilter)
    requires
        f.radius is Some,
    ensures
        exists|t: Seq<char>, v: Seq<SqlValue>, order: Seq<char>|
            {
                &&& is_order_text(f.sort_order, order)
                &&& #[trigger] is_without_radius(f, t, v)
                &&& f.radius == Some(true) ==> sql_text(search_pieces(f)) == #[trigger] (t
                    + (" AND latitude IS NOT NULL AND longitude IS NOT NULL AND latitude>="@ + "?"@
                    + " AND latitude<="@ + "?"@ + " AND longitude>="@ + "?"@ + " AND longitude<="@
                    + "?"@) + order) && sql_values(search_pieces(f)) == v + seq![
                    SqlValue::MinLatitude,
                    SqlValue::MaxLatitude,
                    SqlValue::MinLongitude,
                    SqlValue::MaxLongitude,
                ]
                &&& f.radius == Some(false) ==> sql_text(search_pieces(f)) == t
                    + (" AND latitude IS NOT NULL AND longitude IS NOT NULL AND latitude>="@ + "?"@
                    + " AND latitude<="@ + "?"@) + order && sql_values(search_pieces(f)) == v
                    + seq![SqlValue::MinLatitude, SqlValue::MaxLatitude]
            },
{
    broadcast use {lemma_text_of_push, lemma_values_of_push};

    lemma_asc();
    let none = Seq::<SqlPiece>::empty();
    let g = SearchFilter { radius: None, ..f };
    let before = first_groups(f, 5);
    lemma_same_without_radius(f, 5);
    lemma_page_end(g);
    assert(group_of(g, 6) =~= none);
    assert(first_groups(g, 6) =~= before);
    let dir = crate::sql::sort_direction(crate::paths::opt_view(f.sort_order));
    let by = " ORDER BY COALESCE(captured_at,modified_at,created_at) "@;
    let order = by + dir + ",id "@ + dir;
    let tail = none.push(SqlPiece::Text(by)).push(SqlPiece::Text(dir)).push(
        SqlPiece::Text(",id "@),
    ).push(SqlPiece::Text(dir));
    let narrow = none.push(
        SqlPiece::Text(" AND latitude IS NOT NULL AND longitude IS NOT NULL AND latitude>="@),
    ).push(SqlPiece::Bind(SqlValue::MinLatitude)).push(SqlPiece::Text(" AND latitude<="@)).push(
        SqlPiece::Bind(SqlValue::MaxLatitude),
    );
    let wide = narrow.push(SqlPiece::Text(" AND longitude>="@)).push(
        SqlPiece::Bind(SqlValue::MinLongitude),
    ).push(SqlPiece::Text(" AND longitude<="@)).push(SqlPiece::Bind(SqlValue::MaxLongitude));
    let box_pieces = if f.radius == Some(true) {
        wide
    } else {
        narrow
    };
    lemma_search_groups(f);
    reveal_with_fuel(first_groups, 3);
    assert(group_of(f, 6) =~= box_pieces);
    assert(group_of(f, 7) =~= tail);
    assert(search_pieces(f) == before + box_pieces + tail);
    lemma_pieces_join(before + box_pieces, tail);
    lemma_pieces_join(before, box_pieces);
    let t = sql_text(before);
    let v = sql_values(before);
    assert(is_without_radius(f, t, v));
    assert(sql_text(tail) =~= order);
    assert(sql_values(tail) =~= Seq::empty());
    assert(sql_text(narrow) =~= " AND latitude IS NOT NULL AND longitude IS NOT NULL AND latitude>="@
        + "?"@ + " AND latitude<="@ + "?"@);
    assert(sql_text(wide) =~= " AND latitude IS NOT NULL AND longitude IS NOT NULL AND latitude>="@
        + "?"@ + " AND latitude<="@ + "?"@ + " AND longitude>="@ + "?"@ + " AND longitude<="@
        + "?"@);
    assert(sql_values(narrow) =~= seq![SqlValue::MinLatitude, SqlValue::MaxLatitude]);
    assert(sql_values(wide) =~= seq![
        SqlValue::MinLatitude,
        SqlValue::MaxLatitude,
        SqlValue::MinLongitude,
        SqlValue::MaxLongitude,
    ]);
    assert(sql_values(search_pieces(f)) =~= v + sql_values(box_pieces));
    assert(sql_text(search_pieces(f)) == t + sql_text(box_pieces) + order);
    assert(is_order_text(f.sort_order, order));
    let shown = t + (" AND latitude IS NOT NULL AND longitude IS NOT NULL AND latitude>="@ + "?"@
        + " AND latitude<="@ + "?"@ + " AND longitude>="@ + "?"@ + " AND longitude<="@ + "?"@)
        + order;
    assert(f.radius == Some(true) ==> sql_text(search_pieces(f)) == shown);
}

/// Whether the same search without a radius is this text with these values, and then its page.
pub open spec fn is_without_radius(f: SearchFilter, t: Seq<char>, v: Seq<SqlValue>) -> bool {
    ends_with_page(SearchFilter { radius: None, ..f }, t, v)
}

proof fn lemma_same_without_radius(f: SearchFilter, n: nat)
    requires
        n <= 5,
    ensures
        first_groups(f, n) == first_groups(SearchFilter { radius: None, ..f }, n),
    decreases n,
{
    if n > 0 {
        lemma_same_without_radius(f, (n - 1) as nat);
    }
}

/// Every id that is asked for is bound, in order and nothing else, and each id after the first
/// adds one placeholder to the list.
pub proof fn every_id_is_bound(ids: Seq<i64>, id: i64)
    ensures
        sql_values(media_by_ids_pieces(ids)) == ids.map_values(
            |i: i64| SqlValue::Integer(i as int),
        ),
        sql_text(media_by_ids_pieces(ids)) == media_select() + " WHERE id IN ("@ + sql_text(
            id_list_pieces(ids),
        ) + ")"@,
        sql_text(id_list_pieces(seq![id])) == "?"@,
        ids.len() > 0 ==> sql_text(id_list_pieces(ids.push(id))) == sql_text(id_list_pieces(ids))
            + ","@ + "?"@,
{
    broadcast use {lemma_text_of_push, lemma_values_of_push};

    let none = Seq::<SqlPiece>::empty();
    let list = id_list_pieces(ids);
    let head = none.push(SqlPiece::Text(media_select())).push(SqlPiece::Text(" WHERE id IN ("@));
    let tail = none.push(SqlPiece::Text(")"@));
    assert(media_by_ids_pieces(ids) =~= head + list + tail);
    lemma_pieces_join(head + list, tail);
    lemma_pieces_join(head, list);
    lemma_id_list(ids);
    assert(sql_values(head) =~= Seq::empty());
    assert(sql_values(tail) =~= Seq::empty());
    assert(sql_values(media_by_ids_pieces(ids)) =~= sql_values(list));
    assert(sql_text(media_by_ids_pieces(ids)) =~= media_select() + " WHERE id IN ("@ + sql_text(
        list,
    ) + ")"@);
    let one = none.push(SqlPiece::Bind(SqlValue::Integer(id as int)));
    assert(id_list_pieces(seq![id]) =~= one);
    assert(sql_text(one) =~= "?"@);
    if ids.len() > 0 {
        assert(ids.push(id).drop_last() =~= ids);
        assert(id_list_pieces(ids.push(id)) =~= list.push(SqlPiece::Text(","@)).push(
            SqlPiece::Bind(SqlValue::Integer(id as int)),
        ));
    }
}

proof fn lemma_id_list(ids: Seq<i64>)
    ensures
        sql_values(id_list_pieces(ids)) == ids.map_values(|i: i64| SqlValue::Integer(i as int)),
    decreases ids.len(),
{
    broadcast use lemma_values_of_push;

    let bound = ids.map_values(|i: i64| SqlValue::Integer(i as int));
    if ids.len() == 1 {
        let one = Seq::<SqlPiece>::empty().push(SqlPiece::Bind(SqlValue::Integer(ids[0] as int)));
        assert(id_list_pieces(ids) =~= one);
        assert(sql_values(Seq::<SqlPiece>::empty()) =~= Seq::empty());
    } else if ids.len() > 1 {
        lemma_id_list(ids.drop_last());
        assert(id_list_pieces(ids) == id_list_pieces(ids.drop_last()).push(
            SqlPiece::Text(","@),
        ).push(SqlPiece::Bind(SqlValue::Integer(ids.last() as int))));
    }
    assert(sql_values(id_list_pieces(ids)) =~= bound);
}

/// Each way to narrow the list of paths adds its own condition and changes nothing else.
pub proof fn path_lists_are_narrowed_one_by_one(by_id: bool, images_only: bool)
    ensures
        media_paths_sql_text(by_id, true) == media_paths_sql_text(by_id, false)
            + " AND media_type='image'"@,
        media_paths_sql_text(false, false) == "SELECT id,path FROM media_items WHERE missing=0"@
            + path_filter(),
        exists|a: Seq<char>, b: Seq<char>|
            media_paths_sql_text(true, images_only) == #[trigger] ((a + " AND id=?1"@) + b)
                && media_paths_sql_text(false, images_only) == a + b,
{
    assert(media_paths_sql_text(by_id, true) =~= media_paths_sql_text(by_id, false)
        + " AND media_type='image'"@);
    assert(media_paths_sql_text(false, false)
        =~= "SELECT id,path FROM media_items WHERE missing=0"@ + path_filter());
    let a = "SELECT id,path FROM media_items WHERE missing=0"@;
    let b = path_filter() + (if images_only {
        " AND media_type='image'"@
    } else {
        Seq::empty()
    });
    assert(media_paths_sql_text(true, images_only) =~= (a + " AND id=?1"@) + b);
    assert(media_paths_sql_text(false, images_only) =~= a + b);
}

/// Escaping goes letter by letter: it doubles a single quote and leaves every other letter as it
/// is.
pub proof fn escaping_doubles_quotes(a: Seq<char>, b: Seq<char>, c: char)
    ensures
        sql_escaped(a + b) == sql_escaped(a) + sql_escaped(b),
        sql_escaped(seq![c]) == if c == '\'' {
            seq!['\'', '\'']
        } else {
            seq![c]
        },
        !a.contains('\'') ==> sql_escaped(a) == a,
    decreases b.len(), a.len(),
{
    assert(seq![c].drop_last() =~= Seq::empty());
    assert(sql_escaped(Seq::<char>::empty()) =~= Seq::empty());
    assert(sql_escaped(seq![c]) =~= if c == '\'' {
        seq!['\'', '\'']
    } else {
        seq![c]
    });
    if b.len() == 0 {
        assert(a + b =~= a);
        assert(sql_escaped(a) + sql_escaped(b) =~= sql_escaped(a));
    } else {
        escaping_doubles_quotes(a, b.drop_last(), c);
        assert((a + b).drop_last() =~= a + b.drop_last());
        assert(sql_escaped(a + b) =~= sql_escaped(a) + sql_escaped(b));
    }
    if !a.contains('\'') && a.len() > 0 {
        lemma_nothing_to_escape(a);
    }
}

proof fn lemma_nothing_to_escape(a: Seq<char>)
    requires
        !a.contains('\''),
    ensures
        sql_escaped(a) == a,
    decreases a.len(),
{
    if a.len() > 0 {
        let r = a.drop_last();
        if r.contains('\'') {
            let i = choose|i: int| 0 <= i < r.len() && r[i] == '\'';
            assert(a[i] == '\'');
        }
        assert(a[a.len() - 1] == a.last());
        lemma_nothing_to_escape(r);
        assert(r.push(a.last()) =~= a);
    }
}

/// Every excluded folder name has its condition in a filter of names, and a filter of names is
/// as long as its conditions together.
pub proof fn every_name_is_filtered(names: Seq<Seq<char>>, k: int)
    requires
        0 <= k < names.len(),
    ensures
        holds_text(
            name_filters(names),
            " AND lower(path) NOT LIKE '%"@ + sql_escaped(names[k]) + "%'"@,
        ),
        name_filters(names).len() == name_filters(names.remove(k)).len()
            + " AND lower(path) NOT LIKE '%"@.len() + sql_escaped(names[k]).len() + "%'"@.len(),
    decreases names.len(),
{
    let rest = names.drop_last();
    let last = " AND lower(path) NOT LIKE '%"@ + sql_escaped(names.last()) + "%'"@;
    assert(name_filters(names) =~= name_filters(rest) + last);
    if k < rest.len() {
        every_name_is_filtered(rest, k);
        let part = " AND lower(path) NOT LIKE '%"@ + sql_escaped(names[k]) + "%'"@;
        let whole = name_filters(rest);
        let (a, b) = choose|a: Seq<char>, b: Seq<char>| whole == #[trigger] ((a + part) + b);
        assert(name_filters(names) =~= (a + part) + (b + last));
        assert(names.remove(k).drop_last() =~= rest.remove(k));
        assert(names.remove(k).last() == names.last());
    } else {
        assert(name_filters(names) =~= (name_filters(rest) + last) + Seq::empty());
        assert(names.remove(k) =~= rest);
    }
}

/// The filter of paths has a condition for each excluded folder name, one for hidden files and
/// one for face tiles, and nothing else.
pub proof fn path_filter_keeps_excluded_files_out(k: int)
    requires
        0 <= k < crate::paths::blacklisted_folder_names().len(),
    ensures
        holds_text(
            path_filter(),
            " AND lower(path) NOT LIKE '%"@ + sql_escaped(
                crate::paths::blacklisted_folder_names()[k],
            ) + "%'"@,
        ),
        path_filter() == name_filters(crate::paths::blacklisted_folder_names())
            + " AND file_name NOT LIKE '.%'"@
            + " AND (media_type != 'image' OR lower(file_name) NOT LIKE 'facetile%')"@,
{
    let names = crate::paths::blacklisted_folder_names();
    every_name_is_filtered(names, k);
    let part = " AND lower(path) NOT LIKE '%"@ + sql_escaped(names[k]) + "%'"@;
    let whole = name_filters(names);
    let (a, b) = choose|a: Seq<char>, b: Seq<char>| whole == #[trigger] ((a + part) + b);
    let end = " AND file_name NOT LIKE '.%'"@
        + " AND (media_type != 'image' OR lower(file_name) NOT LIKE 'facetile%')"@;
    assert(path_filter() =~= (a + part) + (b + end));
}

/// The positions on a page of a radius search are those that are set, in order, without the
/// first `offset`, and no more than `limit`: the `k`-th on the page is the one after
/// `offset + k` others.
pub proof fn page_is_a_window(flags: Seq<bool>, offset: int, limit: int, k: int)
    requires
        flags.len() <= usize::MAX,
        0 <= offset,
        0 <= limit,
    ensures
        ({
            let set = positions(flags.len(), |i: int| flags[i]);
            let page = page_of(set_positions(flags, flags.len()), offset, limit);
            &&& page.len() == if set.len() <= offset {
                0
            } else if set.len() - offset <= limit {
                set.len() - offset
            } else {
                limit
            }
            &&& 0 <= k < page.len() ==> page[k] == set[offset + k]
        }),
{
    lemma_set_positions(flags, flags.len());
    let all = set_positions(flags, flags.len());
    let page = page_of(all, offset, limit);
    if 0 <= k < page.len() {
        assert(page[k] == all[offset + k]);
    }
}

proof fn lemma_set_positions(flags: Seq<bool>, n: nat)
    requires
        n <= flags.len() <= usize::MAX,
    ensures
        set_positions(flags, n).len() == positions(n, |i: int| flags[i]).len(),
        forall|k: int|
            0 <= k < set_positions(flags, n).len() ==> #[trigger] set_positions(flags, n)[k]
                == positions(n, |i: int| flags[i])[k],
    decreases n,
{
    if n > 0 {
        lemma_set_positions(flags, (n - 1) as nat);
    }
}

/// The statements read the columns that the catalog's rows are made of, in their order.
pub proof fn statements_read_all_columns()
    ensures
        media_select()
            == "SELECT id,path,file_name,extension,media_type,size_bytes,created_at,modified_at,imported_at,missing,camera_make,camera_model,lens_model,captured_at,latitude,longitude,metadata_json FROM media_items"@,
        sql_text(faces_pieces(None, None))
            == "SELECT f.id,f.media_item_id,f.person_id,p.name,f.x,f.y,f.width,f.height,f.confidence,f.created_at FROM faces f LEFT JOIN people p ON p.id=f.person_id WHERE 1=1"@,
{
    broadcast use lemma_text_of_push;

    let head =
        "SELECT f.id,f.media_item_id,f.person_id,p.name,f.x,f.y,f.width,f.height,f.confidence,f.created_at FROM faces f LEFT JOIN people p ON p.id=f.person_id WHERE 1=1"@;
    let one = Seq::<SqlPiece>::empty().push(SqlPiece::Text(head));
    assert(faces_pieces(None, None) =~= one);
    assert(sql_text(one) =~= head);
}

} // verus!
