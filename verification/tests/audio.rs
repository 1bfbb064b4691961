use voice_flow::audio::{
    check_format, check_sample_format, list_microphones, select_microphone, AudioError,
    MicrophoneChoice, SampleFormat,
};

fn devices() -> Vec<Option<String>> {
    vec![None, Some("USB".to_owned()), Some("Built-in".to_owned()), Some("USB".to_owned())]
}

#[test]
fn microphones_are_listed_by_name() {
    let found = list_microphones(&devices(), &Some("Built-in".to_owned()));
    let listed: Vec<(&str, &str, bool)> = found
        .iter()
        .map(|microphone| (microphone.id.as_str(), microphone.name.as_str(), microphone.is_default))
        .collect();
    assert_eq!(
        listed,
        [("USB", "USB", false), ("Built-in", "Built-in", true), ("USB", "USB", false)]
    );
    assert!(list_microphones(&devices(), &None).iter().all(|found| !found.is_default));
}

#[test]
fn microphones_are_selected() {
    assert!(matches!(select_microphone("", true, &devices()), Ok(MicrophoneChoice::Default)));
    assert!(matches!(select_microphone("", false, &devices()), Err(AudioError::NoDefault)));
    assert!(matches!(select_microphone("USB", false, &devices()), Ok(MicrophoneChoice::Device(1))));
    let error = select_microphone("None", true, &devices()).unwrap_err();
    assert_eq!(error.message(), "selected microphone is not available: None");
    assert_eq!(AudioError::NoDefault.message(), "no default microphone is available");
}

#[test]
fn formats_are_checked() {
    assert!(check_format(1, 48_000).is_ok());
    for (channels, rate) in [(0, 48_000), (2, 0), (0, 0)] {
        let error = check_format(channels, rate).unwrap_err();
        assert_eq!(error.message(), "the selected microphone reported an invalid audio format");
    }
    assert!(check_sample_format(&SampleFormat::F32).is_ok());
    assert!(check_sample_format(&SampleFormat::I16).is_ok());
    assert!(check_sample_format(&SampleFormat::U16).is_ok());
    let error = check_sample_format(&SampleFormat::Other("I24".to_owned())).unwrap_err();
    assert_eq!(error.message(), "unsupported microphone sample format: I24");
}
