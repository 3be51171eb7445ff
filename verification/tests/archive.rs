use memkeeper_store::archive::{
    backup_store, database_text, export_header, export_sql, export_store, import_store,
    validate_import_request, write_export_file, write_sql_value_json, BackupFacts, BackupRequest,
    ExportCell, ExportRequest, ExportedTable, ImportRequest,
    ImportTarget,
};
use memkeeper_store::digest::sha256_text;
use memkeeper_store::error::Error;
use memkeeper_store::import::{
    decode_hex_blob, import_column_type, import_sql_value, import_tables_for_schema,
    ArchiveReader, ImportCell, ImportColumnType, ImportInsert, ParsedImportFile, TableSpec,
};
use memkeeper_store::integrity::{
    validate_import_integrity, ImportMemoryInvariantRow, ImportSiloRow, ImportSpaceRow,
    ImportTagRow, ImportVersionRow, ImportedStore, SpaceCrossings,
};
use memkeeper_store::paths::{PathFacts, Sidecars};
use memkeeper_store::ranking::{Score, UNIT_SCORE_KEY};
use memkeeper_store::records::{
    fits_within, get_member, grown_line, import_json_object_is_valid, import_line_text,
    put_member, read_limited_jsonl_record, real_value, trim_jsonl_newline, ImportJson,
};

fn texts(list: &[&str]) -> Vec<String> {
    list.iter().map(|t| t.to_string()).collect()
}

fn message<T>(r: Result<T, Error>) -> String {
    match r {
        Ok(_) => panic!("accepted"),
        Err(e) => e.message(),
    }
}

fn key_of(value: f64) -> Score {
    let bits = value.to_bits() as i64;
    if bits >= 0 {
        Score { key: bits }
    } else {
        Score { key: -(bits & i64::MAX) }
    }
}

fn json(value: &serde_json::Value) -> ImportJson {
    match value {
        serde_json::Value::Null => ImportJson::Null,
        serde_json::Value::Bool(b) => ImportJson::Bool(*b),
        serde_json::Value::Number(n) => match n.as_i64() {
            Some(i) => ImportJson::Integer(i),
            None => real_value(key_of(n.as_f64().unwrap())).unwrap(),
        },
        serde_json::Value::String(s) => ImportJson::Text(s.clone()),
        serde_json::Value::Array(list) => ImportJson::Array(list.iter().map(json).collect()),
        serde_json::Value::Object(map) => {
            let mut members = Vec::new();
            for (k, v) in map {
                put_member(&mut members, k.clone(), json(v)).unwrap();
            }
            ImportJson::Object(members)
        }
    }
}

fn parse(line: &str) -> Result<ImportJson, String> {
    serde_json::from_str::<serde_json::Value>(line).map(|v| json(&v)).map_err(|e| e.to_string())
}

fn table(name: &str, columns: &[&str]) -> TableSpec {
    TableSpec { name: name.to_string(), columns: texts(columns), order_by: columns[0].to_string() }
}

fn known() -> Vec<TableSpec> {
    vec![
        table("memories", &["id", "confidence", "pinned"]),
        table("embeddings", &["memory_id", "vector_blob"]),
        table("memory_representations", &["version_id", "text"]),
    ]
}

fn exported() -> Vec<ExportedTable> {
    let mut tables = known().into_iter();
    vec![
        ExportedTable {
            table: tables.next().unwrap(),
            rows: vec![
                vec![ExportCell::Text("m\"1".to_string()), ExportCell::Real(Some("0.5".to_string())), ExportCell::Integer(1)],
                vec![ExportCell::Text("m2".to_string()), ExportCell::Integer(1), ExportCell::Integer(0)],
            ],
        },
        ExportedTable {
            table: tables.next().unwrap(),
            rows: vec![vec![ExportCell::Text("m2".to_string()), ExportCell::Blob(vec![0, 255])]],
        },
        ExportedTable { table: tables.next().unwrap(), rows: vec![] },
    ]
}

fn read(text: &str) -> Result<(Vec<ImportInsert>, ParsedImportFile), Error> {
    let mut reader = ArchiveReader::new(known());
    let mut rows = Vec::new();
    for line in text.split_inclusive('\n') {
        if let Some(row) = reader.process_import_line(line.as_bytes(), &parse(line))? {
            rows.push(row);
        }
    }
    Ok((rows, reader.finish()?))
}

#[test]
fn an_exported_archive_reads_back() {
    let (text, counts, total) = write_export_file(6, &exported());
    assert_eq!(total, 3);
    assert_eq!(counts[0].rows, 2);
    let (rows, parsed) = read(&text).unwrap();
    assert_eq!(rows.len(), 3);
    assert_eq!(parsed.row_count, 3);
    assert_eq!(parsed.schema_version, 6);
    assert_eq!(parsed.bytes, text.len() as u64);
    assert_eq!(parsed.sha256, sha256_text(&text));
    assert!(matches!(&rows[0].values[0], ImportCell::Text(t) if t == "m\"1"));
    assert!(matches!(&rows[0].values[1], ImportCell::Real(s) if *s == key_of(0.5)));
    assert!(matches!(&rows[1].values[1], ImportCell::RealOfInteger(1)));
    assert!(matches!(&rows[2].values[1], ImportCell::Blob(b) if *b == vec![0u8, 255]));
    assert_eq!(rows[2].sql, "INSERT INTO embeddings (memory_id, vector_blob) VALUES (?1, ?2)");
}

#[test]
fn archives_end_with_a_footer_that_counts() {
    let (text, _, _) = write_export_file(6, &exported());
    let lines: Vec<&str> = text.split_inclusive('\n').collect();
    let without_footer: String = lines[..lines.len() - 1].concat();
    assert!(read(&without_footer).is_err());
    let after_footer = format!("{}{}", text, lines[1]);
    assert!(read(&after_footer).is_err());
    let lost_row: String = lines.iter().enumerate().filter(|(i, _)| *i != 1).map(|(_, l)| *l).collect();
    assert!(message(read(&lost_row)).contains("row_count mismatch"));
    let without_header: String = lines[1..].concat();
    assert!(read(&without_header).is_err());
    let swapped = [lines[0], lines[3], lines[1], lines[2], lines[4]].concat();
    assert!(read(&swapped).is_err());
}

#[test]
fn older_archives_have_no_retrieval_texts() {
    let tables = import_tables_for_schema(5, &known()).unwrap();
    assert_eq!(tables.len(), 2);
    assert_eq!(import_tables_for_schema(6, &known()).unwrap().len(), 3);
    assert!(matches!(
        import_tables_for_schema(4, &known()),
        Err(Error::SchemaMismatch { expected: 6, actual: 4 })
    ));
}

#[test]
fn columns_have_types() {
    assert_eq!(import_column_type("memories", "confidence"), ImportColumnType::Real);
    assert_eq!(import_column_type("memories", "pinned"), ImportColumnType::Integer);
    assert_eq!(import_column_type("embeddings", "vector_blob"), ImportColumnType::Blob);
    assert_eq!(import_column_type("memories", "id"), ImportColumnType::Text);
    assert!(import_sql_value("memories", "pinned", &ImportJson::Text("x".to_string()), 7).is_err());
    assert!(message(import_sql_value("memories", "id", &ImportJson::Bool(true), 7)).contains('7'));
    assert_eq!(decode_hex_blob("00ff", 1).unwrap(), vec![0, 255]);
    assert!(decode_hex_blob("0", 1).is_err());
}

#[test]
fn cells_are_written_as_json() {
    assert_eq!(write_sql_value_json(&ExportCell::Null), "null");
    assert_eq!(write_sql_value_json(&ExportCell::Integer(-7)), "-7");
    assert_eq!(write_sql_value_json(&ExportCell::Real(Some("1.5".to_string()))), "1.5");
    assert_eq!(write_sql_value_json(&ExportCell::Real(None)), "null");
    assert_eq!(write_sql_value_json(&ExportCell::Text("a\n".to_string())), "\"a\\n\"");
    assert_eq!(write_sql_value_json(&ExportCell::Blob(vec![171])), "{\"$memkeeper_blob_hex\":\"ab\"}");
    assert_eq!(database_text("ü".as_bytes()).unwrap(), "ü");
    assert_eq!(message(database_text(&[0xff])), "database text value is not valid UTF-8");
    assert_eq!(export_sql(&known()[1]), "SELECT memory_id, vector_blob FROM embeddings ORDER BY memory_id");
    assert!(export_header(6, &texts(&["a"])).contains("\"schema_version\":6,\"tables\":[\"a\"]"));
}

#[test]
fn exports_stay_clear_of_the_store() {
    let request = ExportRequest { output_path: "/out/x.jsonl".to_string(), format: "jsonl".to_string() };
    let (text, report) = export_store("/data/store.db", &request, "/out/x.jsonl", false, 6, &exported()).unwrap();
    assert_eq!(report.bytes, text.len() as u64);
    assert_eq!(report.sha256, sha256_text(&text));
    assert!(matches!(
        export_store("/data/store.db", &request, "/data/store.db-wal", false, 6, &exported()),
        Err(Error::Conflict { .. })
    ));
    let csv = ExportRequest { output_path: "/out/x".to_string(), format: "csv".to_string() };
    assert_eq!(
        message(export_store("/data/store.db", &csv, "/out/x", false, 6, &exported())),
        "export format must be jsonl in v0.1"
    );
    assert_eq!(
        message(export_store("/data/store.db", &request, "/out/x.jsonl", true, 6, &exported())),
        "output path already exists: /out/x.jsonl"
    );
}

fn no_sidecars() -> Sidecars {
    Sidecars { wal: false, shm: false, journal: false }
}

#[test]
fn backups_are_self_contained() {
    let request = BackupRequest { output_path: "/out/b.db".to_string(), format: "sqlite".to_string() };
    let facts = |left: Sidecars, standing: Sidecars| BackupFacts {
        schema_version: 6,
        page_count: 4,
        bytes: 16384,
        sha256: "sha".to_string(),
        left,
        standing,
        output_exists: false,
    };
    let report = backup_store("/data/s.db", &request, "/out/b.db", "/out/tmp", facts(no_sidecars(), no_sidecars())).unwrap();
    assert_eq!(report.page_count, 4);
    let wal = Sidecars { wal: true, shm: false, journal: false };
    assert!(message(backup_store("/data/s.db", &request, "/out/b.db", "/out/tmp", facts(wal, no_sidecars())))
        .contains("refusing non-self-contained backup"));
    assert!(backup_store("/data/s.db", &request, "/out/b.db", "/out/tmp", facts(no_sidecars(), wal)).is_err());
    let taken = BackupFacts { output_exists: true, ..facts(no_sidecars(), no_sidecars()) };
    assert_eq!(
        message(backup_store("/data/s.db", &request, "/out/b.db", "/out/tmp", taken)),
        "output path already exists: /out/b.db"
    );
}

#[test]
fn json_is_bounded() {
    let mut deep = ImportJson::Null;
    for _ in 0..64 {
        deep = ImportJson::Array(vec![deep]);
    }
    assert!(fits_within(&deep, 65));
    assert!(!fits_within(&ImportJson::Array(vec![deep]), 64));
    assert!(import_json_object_is_valid(&ImportJson::Object(vec![])));
    assert!(!import_json_object_is_valid(&ImportJson::Array(vec![])));
    assert!(real_value(key_of(f64::INFINITY)).is_err());
    let mut members = Vec::new();
    put_member(&mut members, "b".to_string(), ImportJson::Null).unwrap();
    put_member(&mut members, "a".to_string(), ImportJson::Bool(true)).unwrap();
    assert_eq!(members[0].0, "a");
    assert!(put_member(&mut members, "a".to_string(), ImportJson::Null).is_err());
    assert!(get_member(&members, "b").is_some());
    assert!(get_member(&members, "c").is_none());
}

#[test]
fn lines_are_bounded_texts() {
    assert_eq!(trim_jsonl_newline(b"ab\r\n"), 2);
    assert_eq!(trim_jsonl_newline(b"ab"), 2);
    assert_eq!(import_line_text("ü\n".as_bytes(), 1).unwrap(), "ü");
    assert!(import_line_text(&[0xff, b'\n'], 1).is_err());
    assert_eq!(grown_line(10, 5, 1).unwrap(), 15);
    assert!(grown_line(16_777_216, 1, 1).is_err());
}

#[test]
fn lines_are_taken_over_in_pieces() {
    let mut line: Vec<u8> = Vec::new();
    let piece = read_limited_jsonl_record(&mut line, b"ab", 1).unwrap();
    assert_eq!((piece.taken, piece.ended), (2, false));
    let piece = read_limited_jsonl_record(&mut line, b"c\nde\n", 1).unwrap();
    assert_eq!((piece.taken, piece.ended), (2, true));
    assert_eq!(line, b"abc\n");
    let piece = read_limited_jsonl_record(&mut line, b"", 1).unwrap();
    assert_eq!((piece.taken, piece.ended), (0, true));
    let mut full: Vec<u8> = vec![b'x'; 16_777_216];
    assert_eq!(
        message(read_limited_jsonl_record(&mut full, b"\n", 3)),
        "import JSON line 3: import JSONL record exceeds maximum size"
    );
    assert_eq!(full.len(), 16_777_216);
}

fn space() -> ImportSpaceRow {
    ImportSpaceRow {
        name: "workspace-memory".to_string(),
        display_name: None,
        description: None,
        default_silo: "durable".to_string(),
        ontology: None,
        config_json: None,
        created_at: "2026-01-02T03:04:05.000Z".to_string(),
        updated_at: "2026-01-02T03:04:05.000Z".to_string(),
    }
}

fn silo() -> ImportSiloRow {
    ImportSiloRow {
        space_name: "workspace-memory".to_string(),
        name: "durable".to_string(),
        description: None,
        retention_policy: "retain".to_string(),
        default_scope: "workspace".to_string(),
        config_json: None,
        created_at: "2026-01-02T03:04:05.000Z".to_string(),
        updated_at: "2026-01-02T03:04:05.000Z".to_string(),
    }
}

fn memory(id: &str) -> ImportMemoryInvariantRow {
    let t = "2026-01-02T03:04:05.000Z".to_string();
    ImportMemoryInvariantRow {
        id: id.to_string(),
        space_name: "workspace-memory".to_string(),
        silo_name: "durable".to_string(),
        scope: "workspace".to_string(),
        project_key: None,
        kind: "fact".to_string(),
        entity_key: None,
        claim_key: None,
        status: "active".to_string(),
        confidence: Score { key: UNIT_SCORE_KEY },
        source_episode_id: None,
        valid_from: None,
        valid_to: None,
        observed_at: t.clone(),
        created_at: t.clone(),
        updated_at: t,
        accessed_at: None,
        expires_at: None,
        deleted_at: None,
        metadata_json: None,
    }
}

fn imported() -> ImportedStore {
    ImportedStore {
        invalid_active_version: None,
        spaces: vec![space()],
        silos: vec![silo()],
        source_refs: vec![],
        source_episodes: vec![],
        memories: vec![memory("m")],
        versions: vec![ImportVersionRow {
            id: "v".to_string(),
            content: "text".to_string(),
            summary: None,
            content_sha256: sha256_text("text"),
        }],
        tags: vec![ImportTagRow { memory_id: "m".to_string(), tag: "t".to_string() }],
        representations: vec![],
        crossings: SpaceCrossings {
            memory_source: None,
            version_source: None,
            link: None,
            conflict: None,
            entity_source: None,
            alias_source: None,
            relationship: None,
        },
    }
}

#[test]
fn imported_stores_are_checked() {
    validate_import_integrity(&imported()).unwrap();
    let mut s = imported();
    s.versions[0].content = "tampered".to_string();
    assert!(validate_import_integrity(&s).is_err());
    let mut s = imported();
    s.memories[0].kind = "rumour".to_string();
    assert_eq!(
        message(validate_import_integrity(&s)),
        "import archive has unsupported memory kind: rumour"
    );
    let mut s = imported();
    s.silos.clear();
    assert!(validate_import_integrity(&s).is_err());
    let mut s = imported();
    s.tags.push(ImportTagRow { memory_id: "m".to_string(), tag: " t".to_string() });
    assert!(validate_import_integrity(&s).is_err());
    let mut s = imported();
    s.crossings.link = Some("l".to_string());
    assert!(validate_import_integrity(&s).is_err());
}

#[test]
fn imports_need_a_free_path() {
    let request = ImportRequest {
        input_path: "/in/x.jsonl".to_string(),
        format: "jsonl".to_string(),
        conflict_policy: "fail_if_exists".to_string(),
        dry_run: true,
    };
    let facts = PathFacts { symlink: false, directory: false, sidecar_symlinks: no_sidecars() };
    let (text, _, _) = write_export_file(6, &exported());
    let clear = ImportTarget { exists: false, standing: no_sidecars() };
    let taken = ImportTarget { exists: true, standing: no_sidecars() };
    let parsed = || Ok(read(&text).unwrap().1);
    let report = import_store("/data/new.db", facts, clear, &request, parsed(), &imported(), 1, 0).unwrap();
    assert!(report.dry_run);
    assert_eq!(report.row_count, 3);
    assert_eq!(report.sha256, sha256_text(&text));
    assert_eq!(report.bytes, text.len() as u64);
    assert_eq!(
        message(import_store("/data/new.db", facts, taken, &request, parsed(), &imported(), 1, 0)),
        "output path already exists: /data/new.db"
    );
    let bad = ImportRequest { format: "csv".to_string(), ..request };
    assert!(validate_import_request(&bad).is_err());
}
