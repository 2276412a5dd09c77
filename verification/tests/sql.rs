use rich_media_viewer::sql::{
    cleanup_images_sql, image_media_ids_sql, list_faces_query, media_by_id_sql,
    media_by_ids_query, media_paths_sql, media_select_text, page_limit, page_offset, radius_page,
    search_media_query, semantic_vectors_query, sql_escape, sql_path_not_blacklisted_clause,
    SearchFilter, SqlParam,
};

fn no_filter() -> SearchFilter {
    SearchFilter {
        query: None,
        media_type: None,
        missing: None,
        from_ts: None,
        to_ts: None,
        camera: None,
        radius: None,
        person_id: None,
        person_name: None,
        has_gps: None,
        has_camera: None,
        sort_order: None,
        limit: None,
        offset: None,
    }
}

fn shown(params: &[SqlParam]) -> Vec<String> {
    params
        .iter()
        .map(|p| match p {
            SqlParam::Integer(n) => n.to_string(),
            SqlParam::Text(t) => t.clone(),
            SqlParam::MinLatitude => "min-lat".to_string(),
            SqlParam::MaxLatitude => "max-lat".to_string(),
            SqlParam::MinLongitude => "min-lng".to_string(),
            SqlParam::MaxLongitude => "max-lng".to_string(),
        })
        .collect()
}

const ORDER: &str = " ORDER BY COALESCE(captured_at,modified_at,created_at) ";

#[test]
fn path_filter_names_every_blacklisted_folder() {
    let clause = sql_path_not_blacklisted_clause();
    assert!(clause.starts_with(" AND lower(path) NOT LIKE '%thumbnails%' AND lower(path) NOT LIKE '%thumbnail%'"));
    assert!(clause.contains(" AND lower(path) NOT LIKE '%.trashes%' AND file_name NOT LIKE '.%'"));
    assert!(clause.ends_with(" AND (media_type != 'image' OR lower(file_name) NOT LIKE 'facetile%')"));
    assert_eq!(clause.matches("NOT LIKE").count(), 26);
}

#[test]
fn quotes_are_doubled() {
    assert_eq!(sql_escape("it's 'x'"), "it''s ''x''");
    assert_eq!(sql_escape("plain"), "plain");
}

#[test]
fn search_without_conditions_is_the_latest_page() {
    let q = search_media_query(&no_filter());
    let expected = format!(
        "{} WHERE 1=1{}{ORDER}DESC,id DESC LIMIT ? OFFSET ?",
        media_select_text(),
        sql_path_not_blacklisted_clause()
    );
    assert_eq!(q.sql, expected);
    assert_eq!(shown(&q.params), ["100", "0"]);
}

#[test]
fn search_binds_every_condition_in_order() {
    let filter = SearchFilter {
        query: Some("  cat ".to_string()),
        media_type: Some("image".to_string()),
        missing: Some(true),
        from_ts: Some(10),
        to_ts: Some(20),
        camera: Some(" Canon".to_string()),
        radius: None,
        person_id: Some(7),
        person_name: Some(" Ann ".to_string()),
        has_gps: Some(true),
        has_camera: Some(false),
        sort_order: Some("AsC".to_string()),
        limit: Some(1000),
        offset: Some(-3),
    };
    let q = search_media_query(&filter);
    let expected = format!(
        "{} WHERE 1=1{}{}{}{}{}{}{ORDER}ASC,id ASC LIMIT ? OFFSET ?",
        media_select_text(),
        sql_path_not_blacklisted_clause(),
        " AND media_items.id IN (SELECT DISTINCT f.media_item_id FROM faces f JOIN people p ON p.id=f.person_id WHERE 1=1 AND f.person_id=? AND p.name LIKE ? COLLATE NOCASE)",
        " AND (file_name LIKE ? OR path LIKE ?) AND media_type=? AND missing=?",
        " AND COALESCE(captured_at,modified_at,created_at)>=? AND COALESCE(captured_at,modified_at,created_at)<=?",
        " AND ((camera_make||' '||camera_model) LIKE ? OR camera_model LIKE ?)",
        " AND latitude IS NOT NULL AND longitude IS NOT NULL AND camera_make IS NULL AND camera_model IS NULL",
    );
    assert_eq!(q.sql, expected);
    assert_eq!(
        shown(&q.params),
        ["7", "%Ann%", "%cat%", "%cat%", "image", "1", "10", "20", "% Canon%", "% Canon%", "500", "0"]
    );
}

#[test]
fn blank_query_is_no_condition() {
    let mut filter = no_filter();
    filter.query = Some(" \t".to_string());
    filter.person_id = Some(3);
    filter.has_gps = Some(false);
    filter.has_camera = Some(true);
    filter.missing = Some(false);
    let q = search_media_query(&filter);
    assert!(!q.sql.contains("file_name LIKE ?"));
    assert!(q.sql.contains(" FROM faces f WHERE 1=1 AND f.person_id=?)"));
    assert!(q.sql.contains(" AND (latitude IS NULL OR longitude IS NULL)"));
    assert!(q.sql.contains(" AND (camera_make IS NOT NULL OR camera_model IS NOT NULL)"));
    assert_eq!(shown(&q.params), ["3", "0", "100", "0"]);
}

#[test]
fn radius_search_has_a_box_and_no_page() {
    let mut filter = no_filter();
    filter.radius = Some(true);
    let q = search_media_query(&filter);
    assert!(q.sql.contains(" AND latitude IS NOT NULL AND longitude IS NOT NULL AND latitude>=? AND latitude<=? AND longitude>=? AND longitude<=? ORDER BY"));
    assert!(q.sql.ends_with("DESC,id DESC"));
    assert_eq!(shown(&q.params), ["min-lat", "max-lat", "min-lng", "max-lng"]);
    filter.radius = Some(false);
    assert_eq!(shown(&search_media_query(&filter).params), ["min-lat", "max-lat"]);
}

#[test]
fn search_text_does_not_hold_what_is_searched_for() {
    let mut a = no_filter();
    a.query = Some("x' OR 1=1".to_string());
    let mut b = no_filter();
    b.query = Some("harmless".to_string());
    assert_eq!(search_media_query(&a).sql, search_media_query(&b).sql);
}

#[test]
fn pages_keep_to_their_bounds() {
    assert_eq!(page_limit(None), 100);
    assert_eq!(page_limit(Some(0)), 1);
    assert_eq!(page_limit(Some(501)), 500);
    assert_eq!(page_offset(None), 0);
    assert_eq!(page_offset(Some(-1)), 0);
    assert_eq!(page_offset(Some(12)), 12);
}

#[test]
fn radius_page_counts_only_what_is_near() {
    let near = vec![true, false, true, true, false, true];
    assert_eq!(radius_page(&near, None, None), vec![0, 2, 3, 5]);
    assert_eq!(radius_page(&near, Some(1), Some(2)), vec![2, 3]);
    assert_eq!(radius_page(&near, Some(9), Some(2)), Vec::<usize>::new());
    assert_eq!(radius_page(&near, Some(-4), Some(0)), vec![0]);
}

#[test]
fn radius_pages_follow_one_another() {
    let near = vec![true, true, false, true, true, true, false];
    let mut pages = radius_page(&near, Some(0), Some(2));
    assert_eq!(pages, vec![0, 1]);
    pages.extend(radius_page(&near, Some(2), Some(2)));
    assert_eq!(pages, radius_page(&near, Some(0), Some(4)));
    pages.extend(radius_page(&near, Some(4), Some(1)));
    assert_eq!(pages, radius_page(&near, Some(0), Some(5)));
}

#[test]
fn other_statements_read_as_written() {
    let filter = sql_path_not_blacklisted_clause();
    let base = "SELECT f.id,f.media_item_id,f.person_id,p.name,f.x,f.y,f.width,f.height,f.confidence,f.created_at FROM faces f LEFT JOIN people p ON p.id=f.person_id WHERE 1=1";
    let q = list_faces_query(Some(4), Some(9));
    assert_eq!(q.sql, format!("{base} AND f.media_item_id=? AND f.person_id=?"));
    assert_eq!(shown(&q.params), ["4", "9"]);
    assert_eq!(list_faces_query(None, None).sql, base);
    let v = semantic_vectors_query(&Some("clip".to_string()));
    assert_eq!(v.sql, format!("SELECT e.id,e.media_item_id,e.vector FROM embeddings e JOIN media_items ON media_items.id=e.media_item_id WHERE e.media_item_id IS NOT NULL{filter} AND e.model=?"));
    assert_eq!(shown(&v.params), ["clip"]);
    assert!(semantic_vectors_query(&None).params.is_empty());
    let m = media_by_ids_query(&vec![3, 1, 2]);
    assert_eq!(m.sql, format!("{} WHERE id IN (?,?,?)", media_select_text()));
    assert_eq!(shown(&m.params), ["3", "1", "2"]);
    assert_eq!(media_by_id_sql(), format!("{} WHERE id=?1", media_select_text()));
    assert_eq!(image_media_ids_sql(), format!("SELECT id FROM media_items WHERE missing=0 AND media_type='image'{filter} ORDER BY id"));
    assert_eq!(cleanup_images_sql(), format!("{} WHERE missing=0 AND media_type='image'{filter} ORDER BY id", media_select_text()));
    assert_eq!(media_paths_sql(false, false), format!("SELECT id,path FROM media_items WHERE missing=0{filter}"));
    assert_eq!(media_paths_sql(true, true), format!("SELECT id,path FROM media_items WHERE missing=0 AND id=?1{filter} AND media_type='image'"));
}

#[test]
fn statements_are_understood_by_the_database() {
    let conn = rusqlite::Connection::open_in_memory().unwrap();
    conn.execute_batch(
        "CREATE TABLE media_items(id INTEGER PRIMARY KEY,path TEXT,file_name TEXT,extension TEXT,media_type TEXT,size_bytes INTEGER,created_at INTEGER,modified_at INTEGER,imported_at INTEGER,missing INTEGER,camera_make TEXT,camera_model TEXT,latitude REAL,longitude REAL,lens_model TEXT,captured_at INTEGER,metadata_json TEXT);
         CREATE TABLE people(id INTEGER PRIMARY KEY,name TEXT);
         CREATE TABLE faces(id INTEGER PRIMARY KEY,media_item_id INTEGER,person_id INTEGER,x REAL,y REAL,width REAL,height REAL,confidence REAL,created_at INTEGER);
         CREATE TABLE embeddings(id INTEGER PRIMARY KEY,media_item_id INTEGER,face_id INTEGER,model TEXT,vector BLOB);",
    )
    .unwrap();
    let mut filter = no_filter();
    filter.person_id = Some(1);
    filter.person_name = Some("a".to_string());
    filter.query = Some("b".to_string());
    filter.camera = Some("c".to_string());
    filter.radius = Some(true);
    for q in [
        search_media_query(&filter),
        search_media_query(&no_filter()),
        list_faces_query(Some(1), Some(2)),
        semantic_vectors_query(&Some("m".to_string())),
        media_by_ids_query(&vec![1, 2]),
    ] {
        let statement = conn.prepare(&q.sql).unwrap();
        assert_eq!(statement.parameter_count(), q.params.len());
    }
    for sql in [media_by_id_sql(), image_media_ids_sql(), cleanup_images_sql(), media_paths_sql(true, true)] {
        assert!(conn.prepare(&sql).is_ok());
    }
}
