//! The statements that read the catalog, with the values bound to them.

use vstd::prelude::*;

use crate::conditions::{holds_text, model_only_narrows_the_vectors, name_is_always_bound};
use crate::paths::{blacklisted_folder_names, folder_blacklist, opt_view, strs_view};
use crate::text;
use crate::tuning::clamped;

verus! {

/// A value bound to a placeholder. The corners of the box around a search radius are named,
/// not held.
pub enum SqlParam {
    Integer(i64),
    Text(String),
    MinLatitude,
    MaxLatitude,
    MinLongitude,
    MaxLongitude,
}

/// What an [`SqlParam`] stands for.
pub enum SqlValue {
    Integer(int),
    Text(Seq<char>),
    MinLatitude,
    MaxLatitude,
    MinLongitude,
    MaxLongitude,
}

/// A piece of a statement: text as it stands, or a placeholder with the value bound to it.
pub enum SqlPiece {
    Text(Seq<char>),
    Bind(SqlValue),
}

impl View for SqlParam {
    type V = SqlValue;

    open spec fn view(&self) -> SqlValue {
        match self {
            SqlParam::Integer(n) => SqlValue::Integer(*n as int),
            SqlParam::Text(t) => SqlValue::Text(t@),
            SqlParam::MinLatitude => SqlValue::MinLatitude,
            SqlParam::MaxLatitude => SqlValue::MaxLatitude,
            SqlParam::MinLongitude => SqlValue::MinLongitude,
            SqlParam::MaxLongitude => SqlValue::MaxLongitude,
        }
    }
}

/// The text of a statement: its pieces in order, with `?` for each bound value.
pub open spec fn sql_text(pieces: Seq<SqlPiece>) -> Seq<char>
    decreases pieces.len(),
{
    if pieces.len() == 0 {
        Seq::empty()
    } else {
        sql_text(pieces.drop_last()) + match pieces.last() {
            SqlPiece::Text(t) => t,
            SqlPiece::Bind(_) => "?"@,
        }
    }
}

/// The values of a statement, in the order of their placeholders.
pub open spec fn sql_values(pieces: Seq<SqlPiece>) -> Seq<SqlValue>
    decreases pieces.len(),
{
    if pieces.len() == 0 {
        Seq::empty()
    } else {
        match pieces.last() {
            SqlPiece::Text(_) => sql_values(pieces.drop_last()),
            SqlPiece::Bind(v) => sql_values(pieces.drop_last()).push(v),
        }
    }
}

/// What a list of bound values stands for.
pub open spec fn params_view(params: Seq<SqlParam>) -> Seq<SqlValue> {
    params.map_values(|p: SqlParam| p@)
}

/// A statement and the values bound to its placeholders, in order.
pub struct Query {
    pub sql: String,
    pub params: Vec<SqlParam>,
}

impl Query {
    /// Whether the statement is made of `pieces`.
    pub open spec fn is_made_of(self, pieces: Seq<SqlPiece>) -> bool {
        &&& self.sql@ == sql_text(pieces)
        &&& params_view(self.params@) == sql_values(pieces)
    }
}

/// A statement under construction.
struct Builder {
    sql: String,
    params: Vec<SqlParam>,
    pieces: Ghost<Seq<SqlPiece>>,
}

impl Builder {
    spec fn wf(self) -> bool {
        &&& self.sql@ == sql_text(self.pieces@)
        &&& params_view(self.params@) == sql_values(self.pieces@)
    }

    fn new() -> (b: Builder)
        ensures
            b.wf(),
            b.pieces@ == Seq::<SqlPiece>::empty(),
    {
        let b = Builder { sql: String::new(), params: Vec::new(), pieces: Ghost(Seq::empty()) };
        assert(params_view(b.params@) =~= Seq::empty());
        b
    }

    fn text(&mut self, t: &str)
        requires
            old(self).wf(),
        ensures
            final(self).wf(),
            final(self).pieces@ == old(self).pieces@.push(SqlPiece::Text(t@)),
    {
        self.sql.append(t);
        let ghost before = self.pieces@;
        self.pieces = Ghost(self.pieces@.push(SqlPiece::Text(t@)));
        assert(self.pieces@.drop_last() =~= before);
    }

    fn bind(&mut self, p: SqlParam)
        requires
            old(self).wf(),
        ensures
            final(self).wf(),
            final(self).pieces@ == old(self).pieces@.push(SqlPiece::Bind(p@)),
    {
        self.sql.append("?");
        let ghost before = self.pieces@;
        let ghost held = self.params@;
        self.pieces = Ghost(self.pieces@.push(SqlPiece::Bind(p@)));
        self.params.push(p);
        assert(self.pieces@.drop_last() =~= before);
        assert(params_view(self.params@) =~= params_view(held).push(p@));
    }

    fn finish(self) -> (q: Query)
        requires
            self.wf(),
        ensures
            q.is_made_of(self.pieces@),
    {
        Query { sql: self.sql, params: self.params }
    }
}

/// The columns of a media item, in the order in which rows are read.
pub open spec fn media_select() -> Seq<char> {
    "SELECT id,path,file_name,extension,media_type,size_bytes,created_at,modified_at,imported_at,missing,camera_make,camera_model,lens_model,captured_at,latitude,longitude,metadata_json FROM media_items"@
}

/// See [`media_select`].
pub fn media_select_text() -> (s: &'static str)
    ensures
        s@ == media_select(),
{
    "SELECT id,path,file_name,extension,media_type,size_bytes,created_at,modified_at,imported_at,missing,camera_make,camera_model,lens_model,captured_at,latitude,longitude,metadata_json FROM media_items"
}

/// A text with each single quote doubled, as it stands in a string literal of a statement.
pub open spec fn sql_escaped(s: Seq<char>) -> Seq<char>
    decreases s.len(),
{
    if s.len() == 0 {
        s
    } else if s.last() == '\'' {
        sql_escaped(s.drop_last()).push('\'').push('\'')
    } else {
        sql_escaped(s.drop_last()).push(s.last())
    }
}

/// See [`sql_escaped`].
pub fn sql_escape(s: &str) -> (r: String)
    ensures
        r@ == sql_escaped(s@),
{
    let chars = text::chars_of(s);
    let mut out = String::new();
    let mut i: usize = 0;
    while i < chars.len()
        invariant
            chars@ == s@,
            i <= chars.len(),
            out@ == sql_escaped(s@.take(i as int)),
        decreases chars.len() - i,
    {
        assert(s@.take(i + 1).drop_last() =~= s@.take(i as int));
        if chars[i] == '\'' {
            out.push('\'');
            out.push('\'');
        } else {
            out.push(chars[i]);
        }
        i = i + 1;
    }
    assert(s@.take(s@.len() as int) =~= s@);
    out
}

/// One condition for each name: the path does not hold it, in any case.
pub open spec fn name_filters(names: Seq<Seq<char>>) -> Seq<char>
    decreases names.len(),
{
    if names.len() == 0 {
        Seq::empty()
    } else {
        name_filters(names.drop_last()) + " AND lower(path) NOT LIKE '%"@ + sql_escaped(
            names.last(),
        ) + "%'"@
    }
}

/// The conditions that keep excluded paths, hidden files and face tiles out of a result.
pub open spec fn path_filter() -> Seq<char> {
    name_filters(blacklisted_folder_names()) + " AND file_name NOT LIKE '.%'"@
        + " AND (media_type != 'image' OR lower(file_name) NOT LIKE 'facetile%')"@
}

/// See [`path_filter`].
pub fn sql_path_not_blacklisted_clause() -> (clause: String)
    ensures
        clause@ == path_filter(),
{
    let names = folder_blacklist();
    let ghost views = blacklisted_folder_names();
    let mut out = String::new();
    let mut i: usize = 0;
    assert(views.take(0) =~= Seq::empty());
    while i < names.len()
        invariant
            strs_view(names@) == views,
            i <= names.len(),
            out@ == name_filters(views.take(i as int)),
        decreases names.len() - i,
    {
        assert(views.take(i + 1).drop_last() =~= views.take(i as int));
        assert(views.len() == names@.len());
        assert(views[i as int] == names@[i as int]@);
        let escaped = sql_escape(names[i]);
        out.append(" AND lower(path) NOT LIKE '%");
        out.append(escaped.as_str());
        out.append("%'");
        i = i + 1;
    }
    assert(views.take(views.len() as int) =~= views);
    out.append(" AND file_name NOT LIKE '.%'");
    out.append(" AND (media_type != 'image' OR lower(file_name) NOT LIKE 'facetile%')");
    out
}

/// A search of the catalog.
pub struct SearchFilter {
    pub query: Option<String>,
    pub media_type: Option<String>,
    pub missing: Option<bool>,
    pub from_ts: Option<i64>,
    pub to_ts: Option<i64>,
    pub camera: Option<String>,
    /// A valid search radius, by whether the box around it is bounded in longitude.
    pub radius: Option<bool>,
    pub person_id: Option<i64>,
    pub person_name: Option<String>,
    pub has_gps: Option<bool>,
    pub has_camera: Option<bool>,
    pub sort_order: Option<String>,
    pub limit: Option<i64>,
    pub offset: Option<i64>,
}

/// A text between two `%`.
pub open spec fn like(s: Seq<char>) -> Seq<char> {
    "%"@ + s + "%"@
}

fn like_text(s: &str) -> (r: String)
    ensures
        r@ == like(s@),
{
    text::concat3("%", s, "%")
}

/// The condition on the person in a picture.
pub open spec fn person_pieces(f: SearchFilter) -> Seq<SqlPiece> {
    if f.person_id is None && f.person_name is None {
        Seq::empty()
    } else {
        seq![
            SqlPiece::Text(
                " AND media_items.id IN (SELECT DISTINCT f.media_item_id FROM faces f"@,
            ),
        ] + (if f.person_name is Some {
            seq![SqlPiece::Text(" JOIN people p ON p.id=f.person_id"@)]
        } else {
            Seq::empty()
        }) + seq![SqlPiece::Text(" WHERE 1=1"@)] + (match f.person_id {
            Some(id) => seq![
                SqlPiece::Text(" AND f.person_id="@),
                SqlPiece::Bind(SqlValue::Integer(id as int)),
            ],
            None => Seq::empty(),
        }) + (match f.person_name {
            Some(n) => seq![
                SqlPiece::Text(" AND p.name LIKE "@),
                SqlPiece::Bind(SqlValue::Text(like(text::trimmed(n@)))),
                SqlPiece::Text(" COLLATE NOCASE"@),
            ],
            None => Seq::empty(),
        }) + seq![SqlPiece::Text(")"@)]
    }
}

/// The condition on file name or path.
pub open spec fn query_pieces(f: SearchFilter) -> Seq<SqlPiece> {
    match f.query {
        Some(q) => if text::trimmed(q@).len() == 0 {
            Seq::empty()
        } else {
            let v = SqlValue::Text(like(text::trimmed(q@)));
            seq![
                SqlPiece::Text(" AND (file_name LIKE "@),
                SqlPiece::Bind(v),
                SqlPiece::Text(" OR path LIKE "@),
                SqlPiece::Bind(v),
                SqlPiece::Text(")"@),
            ]
        },
        None => Seq::empty(),
    }
}

/// The conditions on kind, presence and date.
pub open spec fn state_pieces(f: SearchFilter) -> Seq<SqlPiece> {
    (match f.media_type {
        Some(x) => seq![
            SqlPiece::Text(" AND media_type="@),
            SqlPiece::Bind(SqlValue::Text(x@)),
        ],
        None => Seq::empty(),
    }) + (match f.missing {
        Some(x) => seq![
            SqlPiece::Text(" AND missing="@),
            SqlPiece::Bind(
                SqlValue::Integer(
                    if x {
                        1
                    } else {
                        0
                    },
                ),
            ),
        ],
        None => Seq::empty(),
    }) + (match f.from_ts {
        Some(x) => seq![
            SqlPiece::Text(" AND COALESCE(captured_at,modified_at,created_at)>="@),
            SqlPiece::Bind(SqlValue::Integer(x as int)),
        ],
        None => Seq::empty(),
    }) + (match f.to_ts {
        Some(x) => seq![
            SqlPiece::Text(" AND COALESCE(captured_at,modified_at,created_at)<="@),
            SqlPiece::Bind(SqlValue::Integer(x as int)),
        ],
        None => Seq::empty(),
    })
}

/// The condition on the camera's name.
pub open spec fn camera_pieces(f: SearchFilter) -> Seq<SqlPiece> {
    match f.camera {
        Some(cam) => seq![
            SqlPiece::Text(" AND ((camera_make||' '||camera_model) LIKE "@),
            SqlPiece::Bind(SqlValue::Text(like(cam@))),
            SqlPiece::Text(" OR camera_model LIKE "@),
            SqlPiece::Bind(SqlValue::Text(like(cam@))),
            SqlPiece::Text(")"@),
        ],
        None => Seq::empty(),
    }
}

/// The conditions on whether position and camera are known.
pub open spec fn known_pieces(f: SearchFilter) -> Seq<SqlPiece> {
    (match f.has_gps {
        Some(true) => seq![
            SqlPiece::Text(" AND latitude IS NOT NULL AND longitude IS NOT NULL"@),
        ],
        Some(false) => seq![SqlPiece::Text(" AND (latitude IS NULL OR longitude IS NULL)"@)],
        None => Seq::empty(),
    }) + (match f.has_camera {
        Some(true) => seq![
            SqlPiece::Text(" AND (camera_make IS NOT NULL OR camera_model IS NOT NULL)"@),
        ],
        Some(false) => seq![
            SqlPiece::Text(" AND camera_make IS NULL AND camera_model IS NULL"@),
        ],
        None => Seq::empty(),
    })
}

/// The box around the search radius.
pub open spec fn radius_pieces(f: SearchFilter) -> Seq<SqlPiece> {
    match f.radius {
        Some(bounded) => seq![
            SqlPiece::Text(
                " AND latitude IS NOT NULL AND longitude IS NOT NULL AND latitude>="@,
            ),
            SqlPiece::Bind(SqlValue::MinLatitude),
            SqlPiece::Text(" AND latitude<="@),
            SqlPiece::Bind(SqlValue::MaxLatitude),
        ] + (if bounded {
            seq![
                SqlPiece::Text(" AND longitude>="@),
                SqlPiece::Bind(SqlValue::MinLongitude),
                SqlPiece::Text(" AND longitude<="@),
                SqlPiece::Bind(SqlValue::MaxLongitude),
            ]
        } else {
            Seq::empty()
        }),
        None => Seq::empty(),
    }
}

/// The direction of the order by date: ascending where the filter asks for it, in any case.
pub open spec fn sort_direction(order: Option<Seq<char>>) -> Seq<char> {
    match order {
        Some(o) => if text::lower(o) == text::lower("asc"@) {
            "ASC"@
        } else {
            "DESC"@
        },
        None => "DESC"@,
    }
}

/// The most items that a search returns.
pub open spec fn search_limit(limit: Option<i64>) -> int {
    clamped(
        match limit {
            Some(n) => n as int,
            None => 100,
        },
        1,
        500,
    )
}

/// The items that a search passes over.
pub open spec fn search_offset(offset: Option<i64>) -> int {
    match offset {
        Some(n) => if n < 0 {
            0
        } else {
            n as int
        },
        None => 0,
    }
}

/// The order of the result, and its page where no radius is given.
pub open spec fn page_pieces(f: SearchFilter) -> Seq<SqlPiece> {
    let dir = sort_direction(opt_view(f.sort_order));
    seq![
        SqlPiece::Text(" ORDER BY COALESCE(captured_at,modified_at,created_at) "@),
        SqlPiece::Text(dir),
        SqlPiece::Text(",id "@),
        SqlPiece::Text(dir),
    ] + (if f.radius is None {
        seq![
            SqlPiece::Text(" LIMIT "@),
            SqlPiece::Bind(SqlValue::Integer(search_limit(f.limit))),
            SqlPiece::Text(" OFFSET "@),
            SqlPiece::Bind(SqlValue::Integer(search_offset(f.offset))),
        ]
    } else {
        Seq::empty()
    })
}

/// The statement of a search.
pub open spec fn search_pieces(f: SearchFilter) -> Seq<SqlPiece> {
    seq![
        SqlPiece::Text(media_select()),
        SqlPiece::Text(" WHERE 1=1"@),
        SqlPiece::Text(path_filter()),
    ] + person_pieces(f) + query_pieces(f) + state_pieces(f) + camera_pieces(f)
        + known_pieces(f) + radius_pieces(f) + page_pieces(f)
}

fn add_person(b: &mut Builder, f: &SearchFilter)
    requires
        old(b).wf(),
    ensures
        final(b).wf(),
        final(b).pieces@ == old(b).pieces@ + person_pieces(*f),
{
    if f.person_id.is_some() || f.person_name.is_some() {
        b.text(" AND media_items.id IN (SELECT DISTINCT f.media_item_id FROM faces f");
        if f.person_name.is_some() {
            b.text(" JOIN people p ON p.id=f.person_id");
        }
        b.text(" WHERE 1=1");
        if let Some(id) = f.person_id {
            b.text(" AND f.person_id=");
            b.bind(SqlParam::Integer(id));
        }
        if let Some(n) = &f.person_name {
            b.text(" AND p.name LIKE ");
            let trimmed = text::trim(n.as_str());
            b.bind(SqlParam::Text(like_text(trimmed.as_str())));
            b.text(" COLLATE NOCASE");
        }
        b.text(")");
    }
    assert(b.pieces@ =~= old(b).pieces@ + person_pieces(*f));
}

fn add_query(b: &mut Builder, f: &SearchFilter)
    requires
        old(b).wf(),
    ensures
        final(b).wf(),
        final(b).pieces@ == old(b).pieces@ + query_pieces(*f),
{
    if let Some(q) = &f.query {
        let trimmed = text::trim(q.as_str());
        if !trimmed.as_str().is_empty() {
            b.text(" AND (file_name LIKE ");
            b.bind(SqlParam::Text(like_text(trimmed.as_str())));
            b.text(" OR path LIKE ");
            b.bind(SqlParam::Text(like_text(trimmed.as_str())));
            b.text(")");
        }
    }
    assert(b.pieces@ =~= old(b).pieces@ + query_pieces(*f));
}

fn add_state(b: &mut Builder, f: &SearchFilter)
    requires
        old(b).wf(),
    ensures
        final(b).wf(),
        final(b).pieces@ == old(b).pieces@ + state_pieces(*f),
{
    if let Some(x) = &f.media_type {
        b.text(" AND media_type=");
        b.bind(SqlParam::Text(x.clone()));
    }
    if let Some(x) = f.missing {
        b.text(" AND missing=");
        b.bind(
            SqlParam::Integer(
                if x {
                    1
                } else {
                    0
                },
            ),
        );
    }
    if let Some(x) = f.from_ts {
        b.text(" AND COALESCE(captured_at,modified_at,created_at)>=");
        b.bind(SqlParam::Integer(x));
    }
    if let Some(x) = f.to_ts {
        b.text(" AND COALESCE(captured_at,modified_at,created_at)<=");
        b.bind(SqlParam::Integer(x));
    }
    assert(b.pieces@ =~= old(b).pieces@ + state_pieces(*f));
}

fn add_camera(b: &mut Builder, f: &SearchFilter)
    requires
        old(b).wf(),
    ensures
        final(b).wf(),
        final(b).pieces@ == old(b).pieces@ + camera_pieces(*f),
{
    if let Some(cam) = &f.camera {
        b.text(" AND ((camera_make||' '||camera_model) LIKE ");
        b.bind(SqlParam::Text(like_text(cam.as_str())));
        b.text(" OR camera_model LIKE ");
        b.bind(SqlParam::Text(like_text(cam.as_str())));
        b.text(")");
    }
    assert(b.pieces@ =~= old(b).pieces@ + camera_pieces(*f));
}

fn add_known(b: &mut Builder, f: &SearchFilter)
    requires
        old(b).wf(),
    ensures
        final(b).wf(),
        final(b).pieces@ == old(b).pieces@ + known_pieces(*f),
{
    if let Some(x) = f.has_gps {
        if x {
            b.text(" AND latitude IS NOT NULL AND longitude IS NOT NULL");
        } else {
            b.text(" AND (latitude IS NULL OR longitude IS NULL)");
        }
    }
    if let Some(x) = f.has_camera {
        if x {
            b.text(" AND (camera_make IS NOT NULL OR camera_model IS NOT NULL)");
        } else {
            b.text(" AND camera_make IS NULL AND camera_model IS NULL");
        }
    }
    assert(b.pieces@ =~= old(b).pieces@ + known_pieces(*f));
}

fn add_radius(b: &mut Builder, f: &SearchFilter)
    requires
        old(b).wf(),
    ensures
        final(b).wf(),
        final(b).pieces@ == old(b).pieces@ + radius_pieces(*f),
{
    if let Some(bounded) = f.radius {
        b.text(" AND latitude IS NOT NULL AND longitude IS NOT NULL AND latitude>=");
        b.bind(SqlParam::MinLatitude);
        b.text(" AND latitude<=");
        b.bind(SqlParam::MaxLatitude);
        if bounded {
            b.text(" AND longitude>=");
            b.bind(SqlParam::MinLongitude);
            b.text(" AND longitude<=");
            b.bind(SqlParam::MaxLongitude);
        }
    }
    assert(b.pieces@ =~= old(b).pieces@ + radius_pieces(*f));
}

/// See [`search_limit`].
pub fn page_limit(limit: Option<i64>) -> (n: i64)
    ensures
        n == search_limit(limit),
{
    let wanted: i64 = match limit {
        Some(n) => n,
        None => 100,
    };
    if wanted < 1 {
        1
    } else if wanted > 500 {
        500
    } else {
        wanted
    }
}

/// See [`search_offset`].
pub fn page_offset(offset: Option<i64>) -> (n: i64)
    ensures
        n == search_offset(offset),
{
    match offset {
        Some(n) => if n < 0 {
            0
        } else {
            n
        },
        None => 0,
    }
}

fn add_page(b: &mut Builder, f: &SearchFilter)
    requires
        old(b).wf(),
    ensures
        final(b).wf(),
        final(b).pieces@ == old(b).pieces@ + page_pieces(*f),
{
    let ascending = match &f.sort_order {
        Some(order) => text::eq_ignore_ascii_case(order.as_str(), "asc"),
        None => false,
    };
    let dir = if ascending {
        "ASC"
    } else {
        "DESC"
    };
    b.text(" ORDER BY COALESCE(captured_at,modified_at,created_at) ");
    b.text(dir);
    b.text(",id ");
    b.text(dir);
    if f.radius.is_none() {
        b.text(" LIMIT ");
        b.bind(SqlParam::Integer(page_limit(f.limit)));
        b.text(" OFFSET ");
        b.bind(SqlParam::Integer(page_offset(f.offset)));
    }
    assert(b.pieces@ =~= old(b).pieces@ + page_pieces(*f));
}

/// The statement that a search runs.
pub fn search_media_query(f: &SearchFilter) -> (q: Query)
    ensures
        q.is_made_of(search_pieces(*f)),
        f.person_name matches Some(n) ==> params_view(q.params@).contains(
            SqlValue::Text("%"@ + text::trimmed(n@) + "%"@),
        ) && holds_text(q.sql@, " AND p.name LIKE "@ + "?"@),
{
    proof {
        if f.person_name is Some {
            name_is_always_bound(*f);
        }
    }
    let mut b = Builder::new();
    b.text(media_select_text());
    b.text(" WHERE 1=1");
    let clause = sql_path_not_blacklisted_clause();
    b.text(clause.as_str());
    assert(b.pieces@ =~= seq![
        SqlPiece::Text(media_select()),
        SqlPiece::Text(" WHERE 1=1"@),
        SqlPiece::Text(path_filter()),
    ]);
    add_person(&mut b, f);
    add_query(&mut b, f);
    add_state(&mut b, f);
    add_camera(&mut b, f);
    add_known(&mut b, f);
    add_radius(&mut b, f);
    add_page(&mut b, f);
    b.finish()
}

/// The positions below `n` at which `flags` is set.
pub open spec fn set_positions(flags: Seq<bool>, n: nat) -> Seq<usize>
    decreases n,
{
    if n == 0 {
        Seq::empty()
    } else if flags[n - 1] {
        set_positions(flags, (n - 1) as nat).push((n - 1) as usize)
    } else {
        set_positions(flags, (n - 1) as nat)
    }
}

/// A page of a list: up to `limit` entries behind the first `offset`.
pub open spec fn page_of(all: Seq<usize>, offset: int, limit: int) -> Seq<usize> {
    let rest = if offset <= all.len() {
        all.skip(offset)
    } else {
        Seq::empty()
    };
    if limit <= rest.len() {
        rest.take(limit)
    } else {
        rest
    }
}

/// Of the items found in the box around a radius, the positions on the page: those within the
/// radius, up to the search's limit, behind the first ones that its offset passes over.
pub fn radius_page(within: &Vec<bool>, offset: Option<i64>, limit: Option<i64>) -> (page: Vec<usize>)
    ensures
        page@ == page_of(
            set_positions(within@, within@.len()),
            search_offset(offset),
            search_limit(limit),
        ),
{
    let skip: i64 = page_offset(offset);
    let most: i64 = page_limit(limit);
    let mut passed: i64 = 0;
    let mut taken: i64 = 0;
    let mut out: Vec<usize> = Vec::new();
    let mut i: usize = 0;
    assert(page_of(set_positions(within@, 0), skip as int, most as int) =~= Seq::empty());
    while i < within.len()
        invariant
            i <= within.len(),
            0 <= skip,
            1 <= most <= 500,
            passed == if set_positions(within@, i as nat).len() <= skip {
                set_positions(within@, i as nat).len() as int
            } else {
                skip as int
            },
            taken == out@.len(),
            taken <= most,
            out@ == page_of(set_positions(within@, i as nat), skip as int, most as int),
        decreases within.len() - i,
    {
        let ghost all = set_positions(within@, i as nat);
        if within[i] {
            if passed < skip {
                passed = passed + 1;
                assert(page_of(all.push(i), skip as int, most as int) =~= out@);
            } else if taken < most {
                out.push(i);
                taken = taken + 1;
                assert(page_of(all.push(i), skip as int, most as int) =~= out@);
            } else {
                assert(page_of(all.push(i), skip as int, most as int) =~= out@);
            }
        }
        i = i + 1;
    }
    out
}

/// Pages follow one another without gap or overlap: a page and the one behind it, of whatever
/// size, are the page of both sizes together.
pub proof fn next_page_follows(all: Seq<usize>, offset: int, first: int, second: int)
    requires
        0 <= offset,
        0 <= first,
        0 <= second,
    ensures
        page_of(all, offset, first) + page_of(all, offset + first, second) == page_of(
            all,
            offset,
            first + second,
        ),
        page_of(all, offset, first).len() <= first,
{
    assert(page_of(all, offset, first) + page_of(all, offset + first, second) =~= page_of(
        all,
        offset,
        first + second,
    ));
}

/// The statement that lists faces, of one media item, of one person, or of both.
pub open spec fn faces_pieces(media_item_id: Option<i64>, person_id: Option<i64>) -> Seq<SqlPiece> {
    seq![
        SqlPiece::Text(
            "SELECT f.id,f.media_item_id,f.person_id,p.name,f.x,f.y,f.width,f.height,f.confidence,f.created_at FROM faces f LEFT JOIN people p ON p.id=f.person_id WHERE 1=1"@,
        ),
    ] + (match media_item_id {
        Some(x) => seq![
            SqlPiece::Text(" AND f.media_item_id="@),
            SqlPiece::Bind(SqlValue::Integer(x as int)),
        ],
        None => Seq::empty(),
    }) + (match person_id {
        Some(x) => seq![
            SqlPiece::Text(" AND f.person_id="@),
            SqlPiece::Bind(SqlValue::Integer(x as int)),
        ],
        None => Seq::empty(),
    })
}

/// See [`faces_pieces`].
pub fn list_faces_query(media_item_id: Option<i64>, person_id: Option<i64>) -> (q: Query)
    ensures
        q.is_made_of(faces_pieces(media_item_id, person_id)),
{
    let mut b = Builder::new();
    b.text(
        "SELECT f.id,f.media_item_id,f.person_id,p.name,f.x,f.y,f.width,f.height,f.confidence,f.created_at FROM faces f LEFT JOIN people p ON p.id=f.person_id WHERE 1=1",
    );
    if let Some(x) = media_item_id {
        b.text(" AND f.media_item_id=");
        b.bind(SqlParam::Integer(x));
    }
    if let Some(x) = person_id {
        b.text(" AND f.person_id=");
        b.bind(SqlParam::Integer(x));
    }
    assert(b.pieces@ =~= faces_pieces(media_item_id, person_id));
    b.finish()
}

/// The statement that reads the vectors to search, of one model or of all.
pub open spec fn vectors_pieces(model: Option<Seq<char>>) -> Seq<SqlPiece> {
    seq![
        SqlPiece::Text(
            "SELECT e.id,e.media_item_id,e.vector FROM embeddings e JOIN media_items ON media_items.id=e.media_item_id WHERE e.media_item_id IS NOT NULL"@,
        ),
        SqlPiece::Text(path_filter()),
    ] + (match model {
        Some(m) => seq![SqlPiece::Text(" AND e.model="@), SqlPiece::Bind(SqlValue::Text(m))],
        None => Seq::empty(),
    })
}

/// See [`vectors_pieces`].
pub fn semantic_vectors_query(model: &Option<String>) -> (q: Query)
    ensures
        q.is_made_of(vectors_pieces(opt_view(*model))),
        model is None ==> q.sql@ == sql_text(vectors_pieces(None)) && q.params@.len() == 0,
        model is Some ==> q.sql@ == sql_text(vectors_pieces(None)) + " AND e.model=?"@
            && params_view(q.params@) == seq![SqlValue::Text(model->0@)],
{
    proof {
        model_only_narrows_the_vectors(if model is Some {
            model->0@
        } else {
            Seq::empty()
        });
    }
    let mut b = Builder::new();
    b.text(
        "SELECT e.id,e.media_item_id,e.vector FROM embeddings e JOIN media_items ON media_items.id=e.media_item_id WHERE e.media_item_id IS NOT NULL",
    );
    let clause = sql_path_not_blacklisted_clause();
    b.text(clause.as_str());
    if let Some(m) = model {
        b.text(" AND e.model=");
        b.bind(SqlParam::Text(m.clone()));
    }
    assert(b.pieces@ =~= vectors_pieces(opt_view(*model)));
    let q = b.finish();
    assert(params_view(q.params@).len() == q.params@.len());
    q
}

/// One placeholder for each id, with commas between them.
pub open spec fn id_list_pieces(ids: Seq<i64>) -> Seq<SqlPiece>
    decreases ids.len(),
{
    if ids.len() == 0 {
        Seq::empty()
    } else if ids.len() == 1 {
        seq![SqlPiece::Bind(SqlValue::Integer(ids[0] as int))]
    } else {
        id_list_pieces(ids.drop_last()).push(SqlPiece::Text(","@)).push(
            SqlPiece::Bind(SqlValue::Integer(ids.last() as int)),
        )
    }
}

/// The statement that reads the media items with the given ids.
pub open spec fn media_by_ids_pieces(ids: Seq<i64>) -> Seq<SqlPiece> {
    seq![SqlPiece::Text(media_select()), SqlPiece::Text(" WHERE id IN ("@)] + id_list_pieces(ids)
        + seq![SqlPiece::Text(")"@)]
}

/// See [`media_by_ids_pieces`].
pub fn media_by_ids_query(ids: &Vec<i64>) -> (q: Query)
    ensures
        q.is_made_of(media_by_ids_pieces(ids@)),
{
    let mut b = Builder::new();
    b.text(media_select_text());
    b.text(" WHERE id IN (");
    let ghost start = b.pieces@;
    let mut i: usize = 0;
    assert(b.pieces@ =~= start + id_list_pieces(ids@.take(0)));
    while i < ids.len()
        invariant
            b.wf(),
            i <= ids.len(),
            b.pieces@ == start + id_list_pieces(ids@.take(i as int)),
        decreases ids.len() - i,
    {
        let ghost before = b.pieces@;
        if i > 0 {
            b.text(",");
        }
        b.bind(SqlParam::Integer(ids[i]));
        assert(ids@.take(i + 1).drop_last() =~= ids@.take(i as int));
        assert(b.pieces@ =~= start + id_list_pieces(ids@.take(i + 1)));
        i = i + 1;
    }
    assert(ids@.take(ids@.len() as int) =~= ids@);
    b.text(")");
    assert(start =~= seq![SqlPiece::Text(media_select()), SqlPiece::Text(" WHERE id IN ("@)]);
    assert(b.pieces@ =~= media_by_ids_pieces(ids@));
    b.finish()
}

/// The statement that reads one media item; its placeholder `?1` takes the id.
pub fn media_by_id_sql() -> (sql: String)
    ensures
        sql@ == media_select() + " WHERE id=?1"@,
{
    text::concat2(media_select_text(), " WHERE id=?1")
}

/// The statement that lists the ids of the images to search for faces.
pub fn image_media_ids_sql() -> (sql: String)
    ensures
        sql@ == "SELECT id FROM media_items WHERE missing=0 AND media_type='image'"@
            + path_filter() + " ORDER BY id"@,
{
    let clause = sql_path_not_blacklisted_clause();
    text::concat3(
        "SELECT id FROM media_items WHERE missing=0 AND media_type='image'",
        clause.as_str(),
        " ORDER BY id",
    )
}

/// The statement that lists the images of a cleanup.
pub fn cleanup_images_sql() -> (sql: String)
    ensures
        sql@ == media_select() + " WHERE missing=0 AND media_type='image'"@ + path_filter()
            + " ORDER BY id"@,
{
    let clause = sql_path_not_blacklisted_clause();
    let mut out = media_select_text().to_string();
    out.append(" WHERE missing=0 AND media_type='image'");
    out.append(clause.as_str());
    out.append(" ORDER BY id");
    out
}

/// The statement that lists ids and paths of present items, of one id where `by_id` is set (its
/// placeholder is `?1`), of images only where `images_only` is set.
pub open spec fn media_paths_sql_text(by_id: bool, images_only: bool) -> Seq<char> {
    "SELECT id,path FROM media_items WHERE missing=0"@ + (if by_id {
        " AND id=?1"@
    } else {
        Seq::empty()
    }) + path_filter() + (if images_only {
        " AND media_type='image'"@
    } else {
        Seq::empty()
    })
}

/// See [`media_paths_sql_text`].
pub fn media_paths_sql(by_id: bool, images_only: bool) -> (sql: String)
    ensures
        sql@ == media_paths_sql_text(by_id, images_only),
{
    let mut out = "SELECT id,path FROM media_items WHERE missing=0".to_string();
    if by_id {
        out.append(" AND id=?1");
    }
    let clause = sql_path_not_blacklisted_clause();
    out.append(clause.as_str());
    if images_only {
        out.append(" AND media_type='image'");
    }
    assert(out@ =~= media_paths_sql_text(by_id, images_only));
    out
}

/// Whether two filters ask for the same conditions, whatever the values are.
pub open spec fn same_shape(f: SearchFilter, g: SearchFilter) -> bool {
    &&& f.query is Some <==> g.query is Some
    &&& f.query is Some ==> (text::trimmed(f.query->0@).len() == 0 <==> text::trimmed(
        g.query->0@,
    ).len() == 0)
    &&& f.media_type is Some <==> g.media_type is Some
    &&& f.missing is Some <==> g.missing is Some
    &&& f.from_ts is Some <==> g.from_ts is Some
    &&& f.to_ts is Some <==> g.to_ts is Some
    &&& f.camera is Some <==> g.camera is Some
    &&& f.radius == g.radius
    &&& f.person_id is Some <==> g.person_id is Some
    &&& f.person_name is Some <==> g.person_name is Some
    &&& f.has_gps == g.has_gps
    &&& f.has_camera == g.has_camera
    &&& sort_direction(opt_view(f.sort_order)) == sort_direction(opt_view(g.sort_order))
}

/// Whether two pieces read the same in a statement.
pub open spec fn same_piece(a: SqlPiece, b: SqlPiece) -> bool {
    match (a, b) {
        (SqlPiece::Text(s), SqlPiece::Text(t)) => s == t,
        (SqlPiece::Bind(_), SqlPiece::Bind(_)) => true,
        _ => false,
    }
}

proof fn lemma_same_text(a: Seq<SqlPiece>, b: Seq<SqlPiece>)
    requires
        a.len() == b.len(),
        forall|i: int| 0 <= i < a.len() ==> same_piece(#[trigger] a[i], b[i]),
    ensures
        sql_text(a) == sql_text(b),
    decreases a.len(),
{
    if a.len() > 0 {
        assert forall|i: int| 0 <= i < a.drop_last().len() implies same_piece(
            #[trigger] a.drop_last()[i],
            b.drop_last()[i],
        ) by {
            assert(same_piece(a[i], b[i]));
        }
        lemma_same_text(a.drop_last(), b.drop_last());
        assert(same_piece(a[a.len() - 1], b[a.len() - 1]));
    }
}

/// The values of a filter never reach the text of the statement: filters that ask for the same
/// conditions run the same text.
pub proof fn search_text_depends_on_shape(f: SearchFilter, g: SearchFilter)
    requires
        same_shape(f, g),
    ensures
        sql_text(search_pieces(f)) == sql_text(search_pieces(g)),
{
    let a = search_pieces(f);
    let b = search_pieces(g);
    lemma_shape_person(f, g);
    lemma_shape_query(f, g);
    lemma_shape_state(f, g);
    lemma_shape_camera(f, g);
    lemma_shape_known(f, g);
    lemma_shape_radius(f, g);
    lemma_shape_page(f, g);
    let head = seq![
        SqlPiece::Text(media_select()),
        SqlPiece::Text(" WHERE 1=1"@),
        SqlPiece::Text(path_filter()),
    ];
    let (a1, b1) = (head + person_pieces(f), head + person_pieces(g));
    lemma_pieces_add(head, person_pieces(f), head, person_pieces(g));
    let (a2, b2) = (a1 + query_pieces(f), b1 + query_pieces(g));
    lemma_pieces_add(a1, query_pieces(f), b1, query_pieces(g));
    let (a3, b3) = (a2 + state_pieces(f), b2 + state_pieces(g));
    lemma_pieces_add(a2, state_pieces(f), b2, state_pieces(g));
    let (a4, b4) = (a3 + camera_pieces(f), b3 + camera_pieces(g));
    lemma_pieces_add(a3, camera_pieces(f), b3, camera_pieces(g));
    let (a5, b5) = (a4 + known_pieces(f), b4 + known_pieces(g));
    lemma_pieces_add(a4, known_pieces(f), b4, known_pieces(g));
    let (a6, b6) = (a5 + radius_pieces(f), b5 + radius_pieces(g));
    lemma_pieces_add(a5, radius_pieces(f), b5, radius_pieces(g));
    let (a7, b7) = (a6 + page_pieces(f), b6 + page_pieces(g));
    lemma_pieces_add(a6, page_pieces(f), b6, page_pieces(g));
    lemma_same_text(a, b);
}

/// Whether two lists of pieces read the same in a statement.
spec fn same_pieces(a: Seq<SqlPiece>, b: Seq<SqlPiece>) -> bool {
    &&& a.len() == b.len()
    &&& forall|i: int| 0 <= i < a.len() ==> same_piece(#[trigger] a[i], b[i])
}

proof fn lemma_pieces_add(a: Seq<SqlPiece>, b: Seq<SqlPiece>, c: Seq<SqlPiece>, d: Seq<SqlPiece>)
    requires
        same_pieces(a, c),
        same_pieces(b, d),
    ensures
        same_pieces(a + b, c + d),
{
    assert forall|i: int| 0 <= i < (a + b).len() implies same_piece(#[trigger] (a + b)[i], (c + d)[i]) by {
        if i < a.len() {
            assert(same_piece(a[i], c[i]));
        } else {
            assert(same_piece(b[i - a.len()], d[i - a.len()]));
        }
    }
}

proof fn lemma_shape_person(f: SearchFilter, g: SearchFilter)
    requires
        same_shape(f, g),
    ensures
        same_pieces(person_pieces(f), person_pieces(g)),
{
}

proof fn lemma_shape_query(f: SearchFilter, g: SearchFilter)
    requires
        same_shape(f, g),
    ensures
        same_pieces(query_pieces(f), query_pieces(g)),
{
}

proof fn lemma_shape_state(f: SearchFilter, g: SearchFilter)
    requires
        same_shape(f, g),
    ensures
        same_pieces(state_pieces(f), state_pieces(g)),
{
}

proof fn lemma_shape_camera(f: SearchFilter, g: SearchFilter)
    requires
        same_shape(f, g),
    ensures
        same_pieces(camera_pieces(f), camera_pieces(g)),
{
}

proof fn lemma_shape_known(f: SearchFilter, g: SearchFilter)
    requires
        same_shape(f, g),
    ensures
        same_pieces(known_pieces(f), known_pieces(g)),
{
}

proof fn lemma_shape_radius(f: SearchFilter, g: SearchFilter)
    requires
        same_shape(f, g),
    ensures
        same_pieces(radius_pieces(f), radius_pieces(g)),
{
}

proof fn lemma_shape_page(f: SearchFilter, g: SearchFilter)
    requires
        same_shape(f, g),
    ensures
        same_pieces(page_pieces(f), page_pieces(g)),
{
}

} // verus!
