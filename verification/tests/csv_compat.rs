use cyberscope::export::csv::encode_csv_record;

fn with_csv_crate(cells: &[String]) -> String {
    let mut writer = csv::WriterBuilder::new()
        .has_headers(false)
        .from_writer(Vec::new());
    writer.write_record(cells).unwrap();
    String::from_utf8(writer.into_inner().unwrap()).unwrap()
}

const SAMPLES: [&str; 16] = [
    "",
    "plain",
    "a,b",
    "say \"hi\"",
    "\"",
    "line one\nline two",
    "carriage\rreturn",
    "crlf\r\n",
    "\ttab",
    " padded ",
    "#comment",
    "管理后台",
    "=SUM(A1)",
    "\t=1",
    "''",
    ",\"\n\r",
];

#[test]
fn records_are_written_as_the_csv_crate_writes_them() {
    for a in SAMPLES {
        let single = vec![a.to_owned()];
        assert_eq!(encode_csv_record(&single), with_csv_crate(&single), "{a:?}");
        for b in SAMPLES {
            let pair = vec![a.to_owned(), b.to_owned()];
            assert_eq!(encode_csv_record(&pair), with_csv_crate(&pair), "{a:?} {b:?}");
            let triple = vec![b.to_owned(), String::new(), a.to_owned()];
            assert_eq!(encode_csv_record(&triple), with_csv_crate(&triple), "{a:?} {b:?}");
        }
    }
}

#[test]
fn an_empty_record_is_written_as_the_csv_crate_writes_it() {
    let empty: Vec<String> = Vec::new();
    assert_eq!(encode_csv_record(&empty), with_csv_crate(&empty));
}
