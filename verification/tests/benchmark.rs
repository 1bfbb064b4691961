use voice_flow::benchmark::arguments::{
    benchmark_request, end_window, environment_key, packet, packet_count, parse_args,
    parse_integer, settings_key, CliError, CliOption, RecognitionMode,
};
use voice_flow::benchmark::distance::error_breakdown;
use voice_flow::benchmark::exchange::{
    after_answer, extract_utterances, stable_lag_ms, stable_speech_end_ms, Exchange, ExchangeEnd,
    StableSegment,
};
use voice_flow::benchmark::report::{character_errors, count_stable, measure_latencies};
use voice_flow::benchmark::{
    active_part, add_edge_guards, check_case, decode_pcm, display_ms, gaps, normalize_for_cer,
    percentile, sorted, CaseError, PcmError, SAMPLE_RATE, TRIM_WINDOW_SAMPLES,
};
use voice_flow::asr_options::AUDIO_EDGE_GUARD_MS;
use voice_flow::json::{print_json, read_json, Json};

fn arguments(values: &[&str]) -> Vec<Option<String>> {
    values.iter().map(|value| Some((*value).to_owned())).collect()
}

fn payload(text: &str) -> Json {
    read_json(text.as_bytes()).unwrap()
}

#[test]
fn cer_ignores_case_spacing_and_punctuation() {
    let (errors, reference_len) =
        character_errors("Voice Flow，测试。", "voiceflow测试").unwrap();
    assert_eq!(errors.distance(), 0);
    assert_eq!(reference_len, 11);
}

#[test]
fn edit_distance_counts_a_substitution() {
    let errors = error_breakdown(&['声', '音'], &['生', '音']);
    assert_eq!(errors.distance(), 1);
    assert_eq!(errors.substitutions, 1);
    assert_eq!(errors.insertions, 0);
    assert_eq!(errors.deletions, 0);
}

#[test]
fn percentile_uses_nearest_rank() {
    assert_eq!(percentile(&[40, 10, 30, 20], 50), Some(20));
    assert_eq!(percentile(&[40, 10, 30, 20], 95), Some(40));
    assert_eq!(percentile(&[], 95), None);
}

#[test]
fn edge_guards_wrap_speech_without_changing_it() {
    let speech = vec![11, 22, 33];
    let guarded = add_edge_guards(&speech);
    let guard_samples = SAMPLE_RATE * AUDIO_EDGE_GUARD_MS / 1_000;

    assert_eq!(
        &guarded[guard_samples..guard_samples + speech.len()],
        &speech
    );
    assert!(guarded[..guard_samples].iter().all(|sample| *sample == 0));
    assert!(
        guarded[guard_samples + speech.len()..]
            .iter()
            .all(|sample| *sample == 0)
    );
    assert_eq!(guarded.len(), 2 * guard_samples + 3);
}

#[test]
fn boundary_trimming_keeps_whole_windows() {
    let mut pcm = vec![0; TRIM_WINDOW_SAMPLES * 2];
    pcm.extend(vec![1_000; TRIM_WINDOW_SAMPLES * 2]);
    pcm.extend(vec![0; TRIM_WINDOW_SAMPLES * 3]);
    assert_eq!(active_part(&pcm, 2, 3), vec![1_000; TRIM_WINDOW_SAMPLES * 2]);
    assert_eq!(active_part(&[7; 400], 1, 1), [7; 80]);
}

#[test]
fn edits_are_counted_by_kind() {
    let chars = |text: &str| text.chars().collect::<Vec<char>>();
    let errors = error_breakdown(&chars("kitten"), &chars("sitting"));
    assert_eq!((errors.substitutions, errors.insertions, errors.deletions), (2, 1, 0));
    let errors = error_breakdown(&chars("abc"), &[]);
    assert_eq!((errors.substitutions, errors.insertions, errors.deletions), (0, 0, 3));
    let errors = error_breakdown(&[], &chars("abc"));
    assert_eq!((errors.substitutions, errors.insertions, errors.deletions), (0, 3, 0));
    assert_eq!(error_breakdown(&[], &[]).distance(), 0);
}

#[test]
fn compared_texts_are_normalized() {
    assert_eq!(normalize_for_cer("Ä-1 İ!"), "ä1i".chars().collect::<Vec<char>>());
    assert_eq!(normalize_for_cer(" ,。"), Vec::<char>::new());
}

#[test]
fn values_are_sorted() {
    assert_eq!(sorted(&[3, 1, 2, 1]), [1, 1, 2, 3]);
    assert_eq!(percentile(&[5, 9], 0), Some(5));
    assert_eq!(percentile(&[5, 9], 100), Some(9));
    assert_eq!(percentile(&[5, 9], 101), None);
    assert_eq!(gaps(&[10, 15, 12, 20]), [5, 0, 8]);
    assert!(gaps(&[]).is_empty() && gaps(&[1]).is_empty());
    assert_eq!(display_ms(Some(12)), "12ms");
    assert_eq!(display_ms(None), "n/a");
}

#[test]
fn decoded_audio_is_checked() {
    assert_eq!(decode_pcm(&[1, 0, 0xff, 0xff, 0, 0x80]), Ok(vec![1, -1, i16::MIN]));
    assert_eq!(decode_pcm(&[]), Err(PcmError::Empty));
    assert_eq!(decode_pcm(&[1, 2, 3]), Err(PcmError::IncompleteSample));
}

#[test]
fn cases_are_checked() {
    assert!(check_case(1, "text").is_ok());
    assert_eq!(check_case(2, "text"), Err(CaseError::UnsupportedVersion(2)));
    assert_eq!(check_case(1, " \n"), Err(CaseError::NoExpectedText));
}

#[test]
fn integers_are_parsed_like_the_standard_library() {
    for text in ["0", "+7", "007", "18446744073709551615", "18446744073709551616", "", "+", "-1",
        "1 ", "1_0", "٣", "99999999999999999999999"] {
        assert_eq!(parse_integer(text), text.parse::<u64>().ok(), "{text}");
    }
}

#[test]
fn arguments_are_parsed() {
    let cli = parse_args(&arguments(&["case"])).unwrap();
    assert_eq!(cli.input, Some(0));
    assert!(cli.mode.is_none() && cli.hotwords.is_empty());
    let cli = parse_args(&arguments(&[
        "--mode", "nostream", "--hotword", " Voice Flow ", "dir", "--hotword", "x",
        "--end-window-ms", "200", "--force-to-speech-ms", "1",
    ]))
    .unwrap();
    assert_eq!(cli.input, Some(4));
    assert_eq!(cli.mode, Some(RecognitionMode::Nostream));
    assert_eq!(cli.hotwords, ["Voice Flow", "x"]);
    assert_eq!((cli.end_window_ms, cli.force_to_speech_ms), (Some(200), Some(1)));
    let cli = parse_args(&arguments(&["--mode", "current", "--mode", "all", "dir"])).unwrap();
    assert_eq!(cli.mode, Some(RecognitionMode::Current));
    assert_eq!(parse_args(&vec![None]).unwrap().input, Some(0));
}

#[test]
fn argument_errors_are_told_apart() {
    let fails = |values: &[&str]| parse_args(&arguments(values)).unwrap_err();
    assert!(matches!(fails(&["dir", "-h"]), CliError::Help));
    assert!(matches!(fails(&["--help"]), CliError::Help));
    assert!(matches!(fails(&[]), CliError::MissingInput));
    assert!(matches!(fails(&["a", "b"]), CliError::SecondInput));
    assert!(matches!(fails(&["--mode"]), CliError::MissingValue(CliOption::Mode)));
    assert!(matches!(fails(&["--mode", "fast"]), CliError::UnknownMode(mode) if mode == "fast"));
    assert!(matches!(fails(&["--hotword", " "]), CliError::EmptyHotword));
    assert!(matches!(
        fails(&["--end-window-ms", "x"]),
        CliError::NotAnInteger(CliOption::EndWindow)
    ));
    assert!(matches!(fails(&["--end-window-ms", "199"]), CliError::EndWindowTooShort));
    assert!(matches!(fails(&["--force-to-speech-ms", "0"]), CliError::ForceToSpeechTooShort));
    assert!(matches!(fails(&["d", "--force-to-speech-ms", "5"]), CliError::ForceWithoutEndWindow));
    let not_text = vec![Some("--hotword".to_owned()), None];
    assert!(matches!(
        parse_args(&not_text).unwrap_err(),
        CliError::NotUtf8(CliOption::Hotword)
    ));
}

#[test]
fn argument_errors_are_explained() {
    let told = |arguments: &[&str]| {
        let arguments = arguments.iter().map(|text| Some((*text).to_owned())).collect();
        parse_args(&arguments).unwrap_err().message()
    };
    assert_eq!(told(&["--help"]), "");
    assert_eq!(told(&["--mode"]), "--mode requires a value");
    assert_eq!(
        told(&["--mode", "a\"b"]),
        "unknown mode \"a\\\"b\"; expected current, nostream, or all"
    );
    assert_eq!(told(&["--hotword", "\t"]), "--hotword must not be empty");
    assert_eq!(told(&["--end-window-ms", "-1"]), "--end-window-ms must be an integer");
    assert_eq!(told(&["--end-window-ms", "199"]), "--end-window-ms must be at least 200");
    assert_eq!(told(&["--force-to-speech-ms", "0"]), "--force-to-speech-ms must be at least 1");
    assert_eq!(told(&["a", "b"]), "only one benchmark directory or audio file may be provided");
    assert_eq!(
        told(&[]),
        "missing benchmark directory or audio file; use --help for usage"
    );
    assert_eq!(
        told(&["a", "--force-to-speech-ms", "5"]),
        "--force-to-speech-ms requires --end-window-ms"
    );
    assert_eq!(
        CliError::NotUtf8(CliOption::Hotword).message(),
        "--hotword must be valid UTF-8"
    );
    assert_eq!(
        CliError::UnknownMode("x".to_owned()).message_with("<x>"),
        "unknown mode <x>; expected current, nostream, or all"
    );
}

#[test]
fn modes_have_names_and_endpoints() {
    for mode in [RecognitionMode::Current, RecognitionMode::Nostream] {
        assert_eq!(RecognitionMode::parse(mode.name()), Some(mode));
    }
    assert_eq!(RecognitionMode::parse("all"), None);
    assert!(RecognitionMode::Current.endpoint().ends_with("/bigmodel_async"));
    assert!(RecognitionMode::Nostream.endpoint().ends_with("/bigmodel_nostream"));
    assert!(RecognitionMode::Current.enable_nonstream());
    assert!(!RecognitionMode::Nostream.enable_nonstream());
}

#[test]
fn keys_come_from_the_environment_or_the_settings() {
    assert_eq!(environment_key(" k ").as_deref(), Some("k"));
    assert_eq!(environment_key("  "), None);
    assert_eq!(settings_key(&payload("{\"secret_key\":\" k\"}")).as_deref(), Some("k"));
    for missing in ["{}", "{\"secret_key\":5}", "{\"secret_key\":\" \"}", "[]"] {
        assert_eq!(settings_key(&payload(missing)), None);
    }
}

#[test]
fn requests_depend_on_the_mode() {
    assert_eq!(end_window(RecognitionMode::Current, None), Some(400));
    assert_eq!(end_window(RecognitionMode::Current, Some(900)), Some(900));
    assert_eq!(end_window(RecognitionMode::Nostream, Some(900)), None);
    let words = vec!["Voice Flow".to_owned()];
    let current =
        benchmark_request(RecognitionMode::Current, "zh", &words, Some(500), Some(3)).unwrap();
    let request = current.get("request").unwrap();
    assert_eq!(request.get("enable_nonstream").unwrap().as_bool(), Some(true));
    assert_eq!(request.get("end_window_size").unwrap().as_u64(), Some(500));
    assert_eq!(request.get("force_to_speech_time").unwrap().as_u64(), Some(3));
    assert_eq!(
        request.get("corpus").unwrap().get("context").unwrap().as_str(),
        Some("{\"hotwords\":[{\"word\":\"Voice Flow\"}]}")
    );
    assert!(current.get("audio").unwrap().get("language").is_none());
    assert_eq!(
        current.get("user").unwrap().get("uid").unwrap().as_str(),
        Some("voice-flow-benchmark")
    );
    let nostream =
        benchmark_request(RecognitionMode::Nostream, "zh", &vec![], Some(500), Some(3)).unwrap();
    let request = nostream.get("request").unwrap();
    for missing in ["enable_nonstream", "end_window_size", "force_to_speech_time", "corpus"] {
        assert!(request.get(missing).is_none());
    }
    assert_eq!(nostream.get("audio").unwrap().get("language").unwrap().as_str(), Some("zh"));
    let plain =
        benchmark_request(RecognitionMode::Nostream, "", &vec![], None, None).unwrap();
    assert!(plain.get("audio").unwrap().get("language").is_none());
    assert_eq!(print_json(&Json::whole(5)).unwrap(), "5");
}

#[test]
fn recordings_are_cut_into_packets() {
    assert_eq!(packet_count(0), 1);
    assert_eq!(packet_count(3_200), 1);
    assert_eq!(packet_count(3_201), 2);
    let pcm: Vec<i16> = (0..7_000).map(|i| i as i16).collect();
    let packets: Vec<_> = (0..packet_count(pcm.len())).map(|i| packet(&pcm, i)).collect();
    assert_eq!(packets.len(), 3);
    let joined: Vec<i16> = packets.iter().flat_map(|packet| packet.samples.clone()).collect();
    assert_eq!(joined, pcm);
    assert_eq!(packets.iter().map(|p| p.sequence).collect::<Vec<i32>>(), [2, 3, 4]);
    assert_eq!(packets.iter().map(|p| p.is_last).collect::<Vec<bool>>(), [false, false, true]);
    let silence = packet(&[], 0);
    assert!(silence.is_last && silence.samples.is_empty());
}

#[test]
fn utterances_are_extracted() {
    let found = extract_utterances(&payload(
        "{\"result\":{\"utterances\":[{\"start_time\":1,\"end_time\":2,\"text\":\"a\",\
         \"definite\":true},{\"start_time\":-1,\"end_time\":\"x\",\"definite\":1},5]}}",
    ));
    let plain: Vec<(u64, u64, &str, bool)> = found
        .iter()
        .map(|found| (found.start_ms, found.end_ms, found.text.as_str(), found.definite))
        .collect();
    assert_eq!(plain, [(1, 2, "a", true), (0, 0, "", false), (0, 0, "", false)]);
    for missing in ["{}", "{\"result\":{}}", "{\"result\":{\"utterances\":{}}}"] {
        assert!(extract_utterances(&payload(missing)).is_empty());
    }
}

#[test]
fn exchanges_are_observed() {
    let answer = |start: u64, end: u64, text: &str, definite: bool| {
        extract_utterances(&payload(&format!(
            "{{\"result\":{{\"utterances\":[{{\"start_time\":{start},\"end_time\":{end},\
             \"text\":\"{text}\",\"definite\":{definite}}}]}}}}"
        )))
    };
    let mut observed = Exchange::new();
    observed.note(Some("one".to_owned()), &answer(500, 900, "one", false), 1_000, false);
    observed.note(Some("one".to_owned()), &answer(500, 900, "one", false), 1_100, false);
    observed.note(Some("one two".to_owned()), &answer(500, 2_400, "one two", false), 2_500, false);
    observed.note(Some("One two.".to_owned()), &answer(500, 2_400, "One two.", true), 3_000, false);
    observed.note(None, &answer(500, 2_400, "One, two.", true), 3_500, true);
    observed.note(Some("x".to_owned()), &answer(100, 300, "Um.", true), 4_000, true);
    assert_eq!(observed.text, "x");
    assert_eq!(observed.first_text_ms, Some(1_000));
    assert_eq!(observed.first_text_lag_ms, Some(100));
    assert_eq!(observed.live_update_times_ms, [1_000, 2_500]);
    assert_eq!(observed.live_lags_ms, [100, 100]);
    let segments: Vec<(u64, &str, u64, bool)> = observed
        .stable_segments
        .iter()
        .map(|s| (s.start_ms, s.text.as_str(), s.arrived_ms, s.before_final_audio))
        .collect();
    assert_eq!(segments, [(100, "Um.", 4_000, false), (500, "One, two.", 3_000, true)]);

    let counts = count_stable(&observed.stable_segments);
    assert_eq!((counts.segments, counts.early_segments), (2, 1));
    assert_eq!((counts.characters, counts.early_characters), (8, 6));
    let latencies = measure_latencies(&observed, Some(400), 5_000, 4_200);
    assert_eq!(latencies.live_lag_p50, Some(100));
    assert_eq!(latencies.live_gap_p95, Some(1_500));
    assert_eq!(latencies.stable_lag_p50, Some(1_000));
    assert_eq!(latencies.stable_lag_p95, Some(4_000));
    assert_eq!(latencies.final_tail_ms, 800);
    let empty = measure_latencies(&Exchange::new(), None, 1, 2);
    assert_eq!((empty.live_lag_p50, empty.stable_lag_p95, empty.final_tail_ms), (None, None, 0));
}

#[test]
fn stable_lag_starts_at_the_end_of_speech() {
    let segment = StableSegment {
        start_ms: 0,
        end_ms: 1_000,
        text: String::new(),
        arrived_ms: 1_500,
        before_final_audio: true,
    };
    assert_eq!(stable_speech_end_ms(&segment, None), 1_000);
    assert_eq!(stable_speech_end_ms(&segment, Some(400)), 600);
    assert_eq!(stable_speech_end_ms(&segment, Some(2_000)), 0);
    assert_eq!(stable_lag_ms(&segment, Some(400)), 900);
    assert_eq!(stable_lag_ms(&segment, None), 500);
}

#[test]
fn the_last_answer_ends_the_exchange() {
    assert_eq!(after_answer(false, 5, 5), ExchangeEnd::GoesOn);
    assert_eq!(after_answer(true, 4, 5), ExchangeEnd::TooEarly);
    assert_eq!(after_answer(true, 5, 5), ExchangeEnd::Complete);
}
