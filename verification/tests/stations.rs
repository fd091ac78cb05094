use dvb::station::{station_results, Station};

#[test]
fn station_query_builds_its_url() {
    let st = Station::new("Hauptbahnhof");
    assert_eq!(
        st.url(),
        "http://widgets.vvo-online.de/abfahrtsmonitor/Haltestelle.do?ort=Dresden&hst=Hauptbahnhof&lim=3"
    );
}

#[test]
fn station_query_city_can_be_changed() {
    let st = Station::new("Hbf").city("Leipzig");
    assert_eq!(
        st.url(),
        "http://widgets.vvo-online.de/abfahrtsmonitor/Haltestelle.do?ort=Leipzig&hst=Hbf&lim=3"
    );
}

#[test]
fn result_rows_group_by_city_in_row_order() {
    let rows = vec![
        ("Hauptbahnhof".to_string(), "Dresden".to_string(), "33000028".to_string()),
        ("Postplatz".to_string(), "Dresden".to_string(), "33000037".to_string()),
        ("Goethestr.".to_string(), "Leipzig".to_string(), "27015738".to_string()),
    ];
    let m = station_results(&rows);
    let dresden = m.get_vec("Dresden").unwrap();
    assert_eq!(dresden.len(), 2);
    assert_eq!(dresden[0], ("Hauptbahnhof".to_string(), "33000028".to_string()));
    assert_eq!(dresden[1], ("Postplatz".to_string(), "33000037".to_string()));
    let leipzig = m.get_vec("Leipzig").unwrap();
    assert_eq!(leipzig.len(), 1);
    assert_eq!(leipzig[0].1, "27015738");
    assert!(m.get_vec("Chemnitz").is_none());
}
