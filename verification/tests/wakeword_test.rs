use heimai_shell::handle::{switch_wake_word, WakeWordHandle};
use heimai_shell::wakeword::{
    find_models, locate_model, wake_word_setting, ModelError, ModelSource, WakeWord,
    select_wake_model, SampleChunker, SquelchOutcome, WakeWordPipeline, CHUNK, COOLDOWN_NS,
    EMB_WINDOW, MEL_BINS, SQUELCH_HANGOVER_NS, WW_WINDOW,
};
use std::sync::atomic::{AtomicBool, Ordering};
use std::sync::Arc;

const MS: u64 = 1_000_000;

fn chunk(tag: i32) -> Vec<i32> {
    vec![tag; 4]
}

#[test]
fn quiet_chunks_fill_the_preroll() {
    let mut p: WakeWordPipeline<i32> = WakeWordPipeline::new();
    for i in 0..10 {
        assert!(matches!(p.squelch(chunk(i), (i as u64) * 80 * MS, false), SquelchOutcome::Quiet));
    }
    match p.squelch(chunk(10), 800 * MS, true) {
        SquelchOutcome::Process(feed) => {
            let tags: Vec<i32> = feed.iter().map(|c| c[0]).collect();
            assert_eq!(tags, vec![2, 3, 4, 5, 6, 7, 8, 9, 10]);
        }
        SquelchOutcome::Quiet => panic!("a loud chunk opens the squelch"),
    }
    match p.squelch(chunk(11), 880 * MS, false) {
        SquelchOutcome::Process(feed) => assert_eq!(feed, vec![chunk(11)]),
        SquelchOutcome::Quiet => panic!("the squelch stays open during the hangover"),
    }
}

#[test]
fn squelch_closes_after_hangover() {
    let mut p: WakeWordPipeline<i32> = WakeWordPipeline::new();
    assert!(matches!(p.squelch(chunk(1), 0, true), SquelchOutcome::Process(_)));
    p.add_mel_output(&vec![1; 32 * 3]);
    assert!(matches!(p.squelch(chunk(2), SQUELCH_HANGOVER_NS - 1, false), SquelchOutcome::Process(_)));
    assert!(matches!(p.squelch(chunk(3), SQUELCH_HANGOVER_NS, false), SquelchOutcome::Quiet));
    assert!(p.embedding_input().is_none());
    match p.squelch(chunk(4), SQUELCH_HANGOVER_NS + 80 * MS, true) {
        SquelchOutcome::Process(feed) => assert_eq!(feed, vec![chunk(3), chunk(4)]),
        SquelchOutcome::Quiet => panic!("loud again"),
    }
}

#[test]
fn spectrogram_frames_and_embeddings() {
    let mut p: WakeWordPipeline<i32> = WakeWordPipeline::new();
    assert!(matches!(p.squelch(chunk(0), 0, true), SquelchOutcome::Process(_)));
    // 70 values: two complete frames, the rest is dropped
    let data: Vec<i32> = (0..70).collect();
    p.add_mel_output(&data);
    assert!(p.embedding_input().is_none());
    for k in 0..37 {
        let frames: Vec<i32> = (0..(2 * MEL_BINS) as i32).map(|v| v + 1000 * k).collect();
        p.add_mel_output(&frames);
    }
    p.trim_mel_frames();
    // 76 frames, 76 new
    let input = p.embedding_input().expect("embedding due");
    assert_eq!(input.len(), EMB_WINDOW * MEL_BINS);
    assert_eq!(input[0], 0);
    assert_eq!(input[MEL_BINS], 32);
    let mut count = 0;
    while let Some(window) = p.embedding_input() {
        assert_eq!(window, input);
        p.add_embedding(vec![count; 3]);
        count += 1;
    }
    assert_eq!(count, 76 / 8);
    assert!(p.classifier_input(0).is_none());
}

fn pipeline_with_embeddings(n: usize) -> WakeWordPipeline<i32> {
    let mut p: WakeWordPipeline<i32> = WakeWordPipeline::new();
    assert!(matches!(p.squelch(chunk(0), 0, true), SquelchOutcome::Process(_)));
    p.add_mel_output(&vec![0; EMB_WINDOW * MEL_BINS]);
    p.trim_mel_frames();
    for i in 0..n {
        if p.embedding_input().is_none() {
            p.add_mel_output(&vec![0; 8 * MEL_BINS]);
            p.trim_mel_frames();
        }
        p.add_embedding(vec![i as i32; 2]);
    }
    p
}

#[test]
fn classifier_window_and_cooldown() {
    let mut p = pipeline_with_embeddings(20);
    let (input, size) = p.classifier_input(0).expect("classifier due");
    assert_eq!(size, 2);
    assert_eq!(input.len(), WW_WINDOW * 2);
    assert_eq!(input[0], 4);
    assert_eq!(input[input.len() - 1], 19);
    assert!(!p.classifier_verdict(0, false));
    assert!(p.classifier_input(0).is_some());
    assert!(p.classifier_verdict(10 * MS, true));
    assert!(p.classifier_input(10 * MS).is_none());
    assert!(p.embedding_input().is_none());
}

#[test]
fn no_classifier_during_cooldown() {
    let mut p = pipeline_with_embeddings(16);
    assert!(p.classifier_verdict(100 * MS, true));
    p.add_mel_output(&vec![0; EMB_WINDOW * MEL_BINS]);
    p.trim_mel_frames();
    for i in 0..16 {
        if p.embedding_input().is_none() {
            p.add_mel_output(&vec![0; 8 * MEL_BINS]);
            p.trim_mel_frames();
        }
        p.add_embedding(vec![i; 2]);
    }
    assert!(p.classifier_input(100 * MS + COOLDOWN_NS - 1).is_none());
    assert!(p.classifier_input(100 * MS + COOLDOWN_NS).is_some());
}

#[test]
fn embeddings_are_bounded() {
    let p = pipeline_with_embeddings(40);
    let (input, _) = p.classifier_input(0).unwrap();
    assert_eq!(input[0], 24);
}

#[test]
fn chunker_cuts_the_stream() {
    let mut c: SampleChunker<u32> = SampleChunker::new();
    c.push_samples((0..1000).collect());
    assert!(c.next_chunk().is_none());
    c.push_samples((1000..2600).collect());
    let first = c.next_chunk().unwrap();
    assert_eq!(first, (0..CHUNK as u32).collect::<Vec<u32>>());
    let second = c.next_chunk().unwrap();
    assert_eq!(second[0], CHUNK as u32);
    assert!(c.next_chunk().is_none());
    c.push_samples((2600..2560 + 1280).collect());
    assert_eq!(c.next_chunk().unwrap()[0], 2560);
}

#[test]
fn wake_model_selection() {
    let names: Vec<String> = ["melspectrogram.onnx", "embedding_model.onnx", "readme.txt", ".onnx", "x.ONNX", "hey_jarvis_v0.1.onnx", "alexa.onnx"]
        .iter()
        .map(|s| s.to_string())
        .collect();
    assert_eq!(select_wake_model(&names), Some(5));
    let none: Vec<String> = ["melspectrogram.onnx", "embedding_model.onnx", "notes.onnx.txt"]
        .iter()
        .map(|s| s.to_string())
        .collect();
    assert_eq!(select_wake_model(&none), None);
    assert_eq!(select_wake_model(&vec!["..onnx".to_string()]), Some(0));
}

#[test]
fn handle_raises_the_flag() {
    let flag = Arc::new(AtomicBool::new(false));
    let handle = WakeWordHandle::new(flag.clone());
    assert!(!flag.load(Ordering::SeqCst));
    handle.stop();
    assert!(flag.load(Ordering::SeqCst));
}

fn listing(names: &[&str]) -> Vec<String> {
    names.iter().map(|s| s.to_string()).collect()
}

fn shipped() -> Vec<String> {
    listing(&[
        "melspectrogram.onnx",
        "embedding_model.onnx",
        "hey_jarvis_v0.1.onnx",
        "alexa_v0.1.onnx",
        "hey_mycroft_v0.1.onnx",
    ])
}

#[test]
fn shipped_models_need_no_setup() {
    let c = find_models(&vec![], &shipped(), wake_word_setting(None)).unwrap();
    assert_eq!(c.mel, ModelSource::Bundled);
    assert_eq!(c.embedding, ModelSource::Bundled);
    assert_eq!(c.wake_source, ModelSource::Bundled);
    assert_eq!(c.wake_file, "hey_jarvis_v0.1.onnx");
}

#[test]
fn chosen_shipped_word() {
    let c = find_models(&vec![], &shipped(), wake_word_setting(Some("alexa"))).unwrap();
    assert_eq!(c.wake_file, "alexa_v0.1.onnx");
    let c = find_models(&vec![], &shipped(), wake_word_setting(Some("hey_mycroft"))).unwrap();
    assert_eq!(c.wake_file, "hey_mycroft_v0.1.onnx");
    assert_eq!(wake_word_setting(Some("something else")), WakeWord::HeyJarvis);
}

#[test]
fn user_folder_wins_on_same_name() {
    let user = listing(&["hey_jarvis_v0.1.onnx", "melspectrogram.onnx"]);
    let c = find_models(&user, &shipped(), WakeWord::HeyJarvis).unwrap();
    assert_eq!(c.mel, ModelSource::User);
    assert_eq!(c.embedding, ModelSource::Bundled);
    assert_eq!(c.wake_source, ModelSource::User);
    assert_eq!(locate_model("alexa_v0.1.onnx", &user, &shipped()), Some(ModelSource::Bundled));
    assert_eq!(locate_model("nope.onnx", &user, &shipped()), None);
}

#[test]
fn own_model_from_user_folder() {
    let user = listing(&["notes.txt", "computer.onnx"]);
    let c = find_models(&user, &shipped(), wake_word_setting(Some("custom"))).unwrap();
    assert_eq!(c.wake_source, ModelSource::User);
    assert_eq!(c.wake_file, "computer.onnx");
    assert_eq!(
        find_models(&vec![], &shipped(), WakeWord::Custom).err(),
        Some(ModelError::WakeWordMissing)
    );
}

#[test]
fn missing_models() {
    assert_eq!(
        find_models(&vec![], &vec![], WakeWord::HeyJarvis).err(),
        Some(ModelError::BaseModelsMissing)
    );
    let base = listing(&["melspectrogram.onnx", "embedding_model.onnx"]);
    assert_eq!(find_models(&vec![], &base, WakeWord::Alexa).err(), Some(ModelError::WakeWordMissing));
}

#[test]
fn switching_stops_the_running_engine() {
    let flag = Arc::new(AtomicBool::new(false));
    let mut slot = Some(WakeWordHandle::new(flag.clone()));
    assert!(switch_wake_word(&mut slot, true));
    assert!(slot.is_none());
    assert!(flag.load(Ordering::SeqCst));

    let flag = Arc::new(AtomicBool::new(false));
    let mut slot = Some(WakeWordHandle::new(flag.clone()));
    assert!(!switch_wake_word(&mut slot, false));
    assert!(slot.is_none());
    assert!(flag.load(Ordering::SeqCst));
}

#[test]
fn switching_with_no_engine() {
    let mut slot: Option<WakeWordHandle> = None;
    assert!(switch_wake_word(&mut slot, true));
    assert!(slot.is_none());
    assert!(!switch_wake_word(&mut slot, false));
}
