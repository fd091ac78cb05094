use dvb::line::{Line, TransportMode};

#[test]
fn it_should_identify_correct_values_as_tram() {
    assert_eq!(Line::from("3").mode, TransportMode::Tram);
    assert_eq!(Line::from("11").mode, TransportMode::Tram);
    assert_eq!(Line::from("59").mode, TransportMode::Tram);
    assert_eq!(Line::from("E8").mode, TransportMode::Tram);
    assert_eq!(Line::from("E11").mode, TransportMode::Tram);
    assert_eq!(Line::from("E").mode, TransportMode::Tram);
}

#[test]
fn it_should_identify_correct_values_as_bus() {
    assert_eq!(Line::from("85").mode, TransportMode::Bus);
    assert_eq!(Line::from("99").mode, TransportMode::Bus);
    assert_eq!(Line::from("EV2").mode, TransportMode::Bus);
    assert_eq!(Line::from("E75").mode, TransportMode::Bus);
}

#[test]
fn it_should_identify_correct_values_as_regionalbus() {
    assert_eq!(Line::from("366").mode, TransportMode::Regionalbus);
    assert_eq!(Line::from("999").mode, TransportMode::Regionalbus);
    assert_eq!(Line::from("A").mode, TransportMode::Regionalbus);
    assert_eq!(Line::from("Z").mode, TransportMode::Regionalbus);
    assert_eq!(Line::from("G/L").mode, TransportMode::Regionalbus);
    assert_eq!(Line::from("H/S").mode, TransportMode::Regionalbus);
}

#[test]
fn it_should_identify_correct_values_as_cablecar() {
    assert_eq!(Line::from("SWB").mode, TransportMode::Cablecar)
}

#[test]
fn it_should_identify_correct_values_as_ferry() {
    assert_eq!(Line::from("F7").mode, TransportMode::Ferry);
    assert_eq!(Line::from("F14").mode, TransportMode::Ferry);
}

#[test]
fn it_should_identify_correct_values_as_train() {
    assert_eq!(Line::from("ICE 1717").mode, TransportMode::Train);
    assert_eq!(Line::from("IC 1818").mode, TransportMode::Train);
    assert_eq!(Line::from("RB 1919").mode, TransportMode::Train);
    assert_eq!(Line::from("TLX 2020").mode, TransportMode::Train);
    assert_eq!(Line::from("SB33").mode, TransportMode::Train); // "Sächsische Städtebahn"
    assert_eq!(Line::from("SE19").mode, TransportMode::Train); // "Wintersport Express"
    assert_eq!(Line::from("U28").mode, TransportMode::Train); // fares between Bad Schandau and Děčín
}

#[test]
fn it_should_identify_correct_values_as_citytrain() {
    assert_eq!(Line::from("S3").mode, TransportMode::CityTrain);
    assert_eq!(Line::from("S 2121").mode, TransportMode::CityTrain);
}

#[test]
fn it_should_identify_correct_values_as_oncallbus() {
    assert_eq!(Line::from("alita").mode, TransportMode::OnCallBus);
    assert_eq!(Line::from("alita 95").mode, TransportMode::OnCallBus);
}

#[test]
fn it_should_fail_with_nil() {
    //expect(TransportMode.Departure(line: "Lorem Ipsum")).to(beNil())
}

#[test]
fn numeric_name_with_leading_plus_still_counts_as_number() {
    // str::parse::<u32> accepts a leading plus sign, so "+5" routes
    // through the numeric ranges rather than the text patterns
    assert_eq!(Line::from("+5").mode, TransportMode::Tram);
}

#[test]
fn numeric_name_beyond_the_routed_ranges_is_unknown() {
    assert_eq!(Line::from("1717").mode, TransportMode::Unknown);
}

#[test]
fn departure_from_parts_scales_minutes_to_seconds() {
    let d = dvb::line::Departure::from_parts("11", "Bühlau", 3).unwrap();
    assert_eq!(d.line.identifier, "11");
    assert_eq!(d.line.mode, TransportMode::Tram);
    assert_eq!(d.direction, "Bühlau");
    assert_eq!(d.eta_seconds, 180);
    assert!(dvb::line::Departure::from_parts("11", "x", u64::MAX).is_none());
}
