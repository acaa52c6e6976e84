use vacuum::record::mime::guess_from_extension;

#[test]
fn maps_minimum_plan_extensions() {
    let cases = [
        (".csv", "text/csv"),
        (".tsv", "text/tab-separated-values"),
        (".txt", "text/plain"),
        (".json", "application/json"),
        (".jsonl", "application/x-jsonlines"),
        (".xml", "application/xml"),
        (".pdf", "application/pdf"),
        (
            ".xlsx",
            "application/vnd.openxmlformats-officedocument.spreadsheetml.sheet",
        ),
        (".xls", "application/vnd.ms-excel"),
        (".parquet", "application/vnd.apache.parquet"),
        (".zip", "application/zip"),
        (".gz", "application/gzip"),
        (".yaml", "application/x-yaml"),
        (".yml", "application/x-yaml"),
    ];

    for (extension, mime) in cases {
        assert_eq!(guess_from_extension(Some(extension)), Some(mime));
    }
}

#[test]
fn unknown_extension_maps_to_none() {
    assert_eq!(guess_from_extension(Some(".unknown")), None);
    assert_eq!(guess_from_extension(None), None);
}

#[test]
fn mapping_is_case_insensitive() {
    assert_eq!(
        guess_from_extension(Some(".JSONL")),
        Some("application/x-jsonlines")
    );
}

#[test]
fn upper_case_extensions_map_like_lower_case() {
    let cases = [
        (".CSV", "text/csv"),
        (".TSV", "text/tab-separated-values"),
        (".TXT", "text/plain"),
        (".JSON", "application/json"),
        (".JSONL", "application/x-jsonlines"),
        (".XML", "application/xml"),
        (".PDF", "application/pdf"),
        (
            ".XLSX",
            "application/vnd.openxmlformats-officedocument.spreadsheetml.sheet",
        ),
        (".XLS", "application/vnd.ms-excel"),
        (".PARQUET", "application/vnd.apache.parquet"),
        (".ZIP", "application/zip"),
        (".GZ", "application/gzip"),
        (".YAML", "application/x-yaml"),
        (".YML", "application/x-yaml"),
    ];
    for (extension, mime) in cases {
        assert_eq!(guess_from_extension(Some(extension)), Some(mime));
    }
}

#[test]
fn mixed_case_extensions_map_like_lower_case() {
    let cases = [
        (".CsV", "text/csv"),
        (".TsV", "text/tab-separated-values"),
        (".TxT", "text/plain"),
        (".JsOn", "application/json"),
        (".JsOnL", "application/x-jsonlines"),
        (".XmL", "application/xml"),
        (".PdF", "application/pdf"),
        (
            ".XlSx",
            "application/vnd.openxmlformats-officedocument.spreadsheetml.sheet",
        ),
        (".XlS", "application/vnd.ms-excel"),
        (".PaRqUeT", "application/vnd.apache.parquet"),
        (".ZiP", "application/zip"),
        (".Gz", "application/gzip"),
        (".YaMl", "application/x-yaml"),
        (".YmL", "application/x-yaml"),
    ];
    for (extension, mime) in cases {
        assert_eq!(guess_from_extension(Some(extension)), Some(mime));
    }
}

#[test]
fn extensions_outside_the_table_have_no_guess() {
    let unknown = [
        ".bin", ".exe", ".tmp", ".foo", ".bar", ".baz", ".abc", ".123", ".tar", ".md", ".jpeg",
        ".png", ".sqlite", ".env",
    ];
    for extension in unknown {
        assert_eq!(guess_from_extension(Some(extension)), None);
    }
}

#[test]
fn extension_without_its_dot_has_no_guess() {
    assert_eq!(guess_from_extension(Some("csv")), None);
    assert_eq!(guess_from_extension(Some("")), None);
    assert_eq!(guess_from_extension(Some(".csvx")), None);
    assert_eq!(guess_from_extension(Some(".cs")), None);
}

#[test]
fn only_ascii_letters_are_taken_without_case() {
    // U+212A KELVIN SIGN lower-cases to `k` in Unicode, but is no ASCII letter.
    assert_eq!(guess_from_extension(Some(".\u{212A}")), None);
    assert_eq!(guess_from_extension(Some(".GZ")), Some("application/gzip"));
    // `[` follows `Z` in ASCII and must not fold onto `{`.
    assert_eq!(guess_from_extension(Some(".g[")), None);
    assert_eq!(guess_from_extension(Some(".@sv")), None);
}
