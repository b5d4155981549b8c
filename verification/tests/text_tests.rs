use mongobar::text::{all_dates_valid_check, format_date, get_db_coll, match_date_replace, replace_number};

#[test]
fn test_match_date_replace() {
    let input_date = "{\"id\":\"7b17adef8237aff0ffe256e5733a1ff2\",\"op\":\"Find\",\"db\":\"xgj\",\"coll\":\"notifies\",\"cmd\":{\"find\":\"notifies\",\"filter\":{\"create_at\":{\"$gt\":{\"$date\":\"2022-09-01T08:00:00.000+0800\",\"$gt3\":{\"$date\":\"2022-09-01T08:00:00.000+0800\"}},\"cls\":{\"$in\":[{\"$oid\":\"605db9438b75f3247ce73ef7\"},{\"$oid\":\"637738c552ff71997131a5b1\"}]},\"is_del\":false,\"setting.delay_publish\":false,\"$and\":[{\"$or\":[{\"level\":{\"$exists\":false}},{\"level\":0}]},{\"$or\":[{\"sp_members\":{\"$in\":[\"605db9c022fb10108149a7d7\",\"637c6c4f1032c13bd918d27f\"]}},{\"sp_members\":{\"$eq\":[]}}]},{\"$or\":[{\"ex_members\":{\"$nin\":[\"605db9c022fb10108149a7d7\",\"637c6c4f1032c13bd918d27f\"]}}]}]},\"sort\":{\"sort_time\":-1,\"create_at\":-1},\"projection\":{\"type\":1,\"title\":1,\"text_content\":1,\"cls\":1,\"class_name\":1,\"create_at\":1,\"sort_time\":1,\"daka_end_day\":1,\"daka_start_day\":1,\"subject\":1,\"end_day\":1,\"daka_day\":1,\"daka_rest\":1,\"creator_wx_name\":1,\"daka_latest\":1,\"need_feedback\":1,\"feedback_type\":1,\"status\":1,\"feedbacks\":1,\"tiku\":1,\"atype\":1,\"cate\":1,\"relevant\":1,\"datika\":1,\"fellow_read\":1,\"fellow_write\":1,\"groupBy\":1,\"from_album_cate\":1,\"files\":1,\"stats_list\":1,\"cycleDay\":1,\"accepts\":1,\"invest\":1,\"creator_wx_avatar\":1,\"need_check\":1,\"setting\":1,\"score\":1,\"sa\":1,\"fee\":1,\"attach\":1},\"limit\":10,\"lsid\":{\"id\":{\"$binary\":\"fpiHYejVTSSn+CZS74LL0A==\",\"$type\":\"04\"}},\"$clusterTime\":{\"clusterTime\":{\"$timestamp\":{\"t\":1721355565,\"i\":1010}},\"signature\":{\"hash\":{\"$binary\":\"XJKn9IOd9YU64EkOucajn2wVWBc=\",\"$type\":\"00\"},\"keyId\":{\"$numberLong\":\"7349532703881955184\"}}},\"$db\":\"xgj\"},\"ns\":\"xgj.notifies\",\"ts\":1721355566}";
    assert!(all_dates_valid_check(input_date));
    let output_date = match_date_replace(input_date);
    println!("{}", output_date);
    assert!(output_date.contains("2022-09-01T08:00:00.000Z"));
}

#[test]
fn normalizing_keeps_the_date_and_zeroes_the_fraction() {
    assert!(all_dates_valid_check("2024-07-08T12:34:56.789+0800"));
    assert_eq!(
        match_date_replace("2024-07-08T12:34:56.789+0800"),
        "2024-07-08T12:34:56.000Z"
    );
}

#[test]
fn text_without_timestamps_is_unchanged() {
    assert!(all_dates_valid_check("plain text 1234"));
    assert_eq!(match_date_replace("plain text 1234"), "plain text 1234");
}

#[test]
fn invalid_month_fails_the_validity_check() {
    assert!(!all_dates_valid_check("2024-13-08T12:34:56.789+0800"));
}

#[test]
fn leap_day_is_a_real_date() {
    assert!(all_dates_valid_check("2024-02-29T00:00:00.000+0000"));
    assert!(!all_dates_valid_check("2023-02-29T00:00:00.000+0000"));
}

#[test]
fn format_date_returns_only_the_normalized_timestamp() {
    assert_eq!(
        format_date("2022-09-01T08:00:00.000+0800"),
        "2022-09-01T08:00:00.000Z"
    );
    assert_eq!(format_date("no date here"), "no date here");
}

#[test]
fn digit_runs_are_masked() {
    assert_eq!(replace_number("abc123def45"), "abc[n]def[n]");
    assert_eq!(replace_number("999"), "[n]");
    assert_eq!(replace_number("letters"), "letters");
    assert_eq!(replace_number(""), "");
}

#[test]
fn namespaces_split_on_a_single_dot() {
    let (db, coll) = get_db_coll("shop.orders");
    assert_eq!(db, "shop");
    assert_eq!(coll, "orders");
}

#[test]
fn namespaces_without_one_dot_yield_empty_names() {
    assert_eq!(get_db_coll("plain"), (String::new(), String::new()));
    assert_eq!(get_db_coll("a.b.c"), (String::new(), String::new()));
}
