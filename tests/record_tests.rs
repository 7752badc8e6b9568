use boardgame_suggest::catalog::{position_of_id, BoardGame};
use boardgame_suggest::decimal::{format_u32, parse_bounded};
use boardgame_suggest::record::{record_fields, record_from_fields, RecordError};
use boardgame_suggest::snapshot::{
    catalog_from_csv, catalog_from_rows, catalog_rows, catalog_to_csv, header_fields, is_header,
    CatalogError,
};

fn sample() -> BoardGame {
    BoardGame {
        id: 174430,
        name: "Gloomhaven, \"Big Box\"".to_string(),
        year: 2017,
        rank: 1,
        average_score: "8.7".to_string(),
        bayes_average: "8.5".to_string(),
        users_rated: 47827,
        bgg_url: "/boardgame/174430/gloomhaven".to_string(),
        thumbnail_url: "https://example.org/pic.jpg".to_string(),
    }
}

fn same(a: &BoardGame, b: &BoardGame) -> bool {
    a.id == b.id
        && a.name == b.name
        && a.year == b.year
        && a.rank == b.rank
        && a.average_score == b.average_score
        && a.bayes_average == b.bayes_average
        && a.users_rated == b.users_rated
        && a.bgg_url == b.bgg_url
        && a.thumbnail_url == b.thumbnail_url
}

fn strings(v: &[&str]) -> Vec<String> {
    v.iter().map(|s| s.to_string()).collect()
}

#[test]
fn decimal_writes_and_reads() {
    assert_eq!(format_u32(0), "0");
    assert_eq!(format_u32(7), "7");
    assert_eq!(format_u32(2017), "2017");
    assert_eq!(format_u32(u32::MAX), "4294967295");
    assert_eq!(parse_bounded("4294967295", u32::MAX), Some(u32::MAX));
    assert_eq!(parse_bounded("4294967296", u32::MAX), None);
    assert_eq!(parse_bounded("0042", u32::MAX), Some(42));
    assert_eq!(parse_bounded("65536", 65535), None);
    assert_eq!(parse_bounded("", u32::MAX), None);
    assert_eq!(parse_bounded("+4", u32::MAX), None);
    assert_eq!(parse_bounded("4 ", u32::MAX), None);
    assert_eq!(parse_bounded("99999999999999999999", u32::MAX), None);
}

#[test]
fn record_writes_nine_fields() {
    let f = record_fields(&sample());
    assert_eq!(
        f,
        strings(&[
            "174430",
            "Gloomhaven, \"Big Box\"",
            "2017",
            "1",
            "8.7",
            "8.5",
            "47827",
            "/boardgame/174430/gloomhaven",
            "https://example.org/pic.jpg",
        ])
    );
}

#[test]
fn record_fields_round_trip() {
    let g = sample();
    let back = record_from_fields(&record_fields(&g)).unwrap();
    assert!(same(&g, &back));
}

#[test]
fn record_errors() {
    let short = strings(&["1", "x"]);
    assert_eq!(record_from_fields(&short).err(), Some(RecordError::FieldCount(2)));
    let mut f = record_fields(&sample());
    f[2] = "70000".to_string();
    assert_eq!(record_from_fields(&f).err(), Some(RecordError::Number(2)));
    f[0] = "abc".to_string();
    assert_eq!(record_from_fields(&f).err(), Some(RecordError::Number(0)));
    let mut g = record_fields(&sample());
    g[3] = "".to_string();
    assert_eq!(record_from_fields(&g).err(), Some(RecordError::Number(3)));
    let mut h = record_fields(&sample());
    h[6] = "-1".to_string();
    assert_eq!(record_from_fields(&h).err(), Some(RecordError::Number(6)));
}

#[test]
fn header_is_recognized() {
    assert!(is_header(&header_fields()));
    let mut h = header_fields();
    h.swap(0, 1);
    assert!(!is_header(&h));
    assert!(!is_header(&vec![]));
}

#[test]
fn rows_errors() {
    assert_eq!(catalog_from_rows(&vec![]).unwrap().len(), 0);
    assert_eq!(
        catalog_from_rows(&vec![strings(&["id", "name"])]).err(),
        Some(CatalogError::Header)
    );
    let mut rows = catalog_rows(&[sample(), sample()]);
    rows[2][0] = "x".to_string();
    assert_eq!(
        catalog_from_rows(&rows).err(),
        Some(CatalogError::Record(2, RecordError::Number(0)))
    );
    assert_eq!(catalog_from_rows(&vec![header_fields()]).unwrap().len(), 0);
}

#[test]
fn snapshot_round_trip() {
    let mut other = sample();
    other.id = 13;
    other.name = "Catan".to_string();
    other.rank = 3;
    other.year = 1995;
    let games = vec![sample(), other];
    let bytes = catalog_to_csv(&games);
    let back = catalog_from_csv(&bytes).unwrap();
    assert_eq!(back.len(), 2);
    assert!(same(&games[0], &back[0]));
    assert!(same(&games[1], &back[1]));
}

#[test]
fn snapshot_text_is_csv() {
    let bytes = catalog_to_csv(&[sample()]);
    let text = String::from_utf8(bytes).unwrap();
    assert_eq!(
        text,
        "ID,Name,Year,Rank,Average,Bayes average,Users rated,URL,Thumbnail\n\
         174430,\"Gloomhaven, \"\"Big Box\"\"\",2017,1,8.7,8.5,47827,/boardgame/174430/gloomhaven,https://example.org/pic.jpg\n"
    );
}

#[test]
fn snapshot_read_from_text() {
    let text = "ID,Name,Year,Rank,Average,Bayes average,Users rated,URL,Thumbnail\n\
                13,Catan,1995,3,7.1,7.0,100,/boardgame/13/catan,\n";
    let games = catalog_from_csv(text.as_bytes()).unwrap();
    assert_eq!(games.len(), 1);
    assert_eq!(games[0].id, 13);
    assert_eq!(games[0].name, "Catan");
    assert_eq!(games[0].rank, 3);
    assert_eq!(games[0].thumbnail_url, "");
    let ragged = "ID,Name\n1,2,3\n";
    assert_eq!(catalog_from_csv(ragged.as_bytes()).err(), Some(CatalogError::Csv));
    assert_eq!(catalog_from_csv(b"").unwrap().len(), 0);
    let bad_utf8: &[u8] = b"ID,Name\n\xff\xfe,x\n";
    assert_eq!(catalog_from_csv(bad_utf8).err(), Some(CatalogError::Csv));
}

#[test]
fn position_of_first_id() {
    let mut a = sample();
    a.id = 5;
    let b = sample();
    let c = vec![a, b.clone(), b];
    assert_eq!(position_of_id(&c, 174430), Some(1));
    assert_eq!(position_of_id(&c, 5), Some(0));
    assert_eq!(position_of_id(&c, 6), None);
}

#[test]
fn empty_catalog_writes_nothing() {
    let empty: Vec<BoardGame> = vec![];
    assert!(catalog_rows(&empty).is_empty());
    let bytes = catalog_to_csv(&empty);
    assert!(bytes.is_empty());
    assert_eq!(catalog_from_csv(&bytes).unwrap().len(), 0);
}

#[test]
fn reading_twice_agrees() {
    let bytes = catalog_to_csv(&[sample()]);
    let a = catalog_from_csv(&bytes).unwrap();
    let b = catalog_from_csv(&bytes).unwrap();
    assert_eq!(a.len(), b.len());
    assert!(same(&a[0], &b[0]));
    let bad = b"ID,Name\n1\n";
    assert_eq!(catalog_from_csv(bad).err(), catalog_from_csv(bad).err());
}
