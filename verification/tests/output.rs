use renzokutai::sink::{LogSink, StreamKind};

#[test]
fn interleaved_streams_keep_per_stream_order() {
    // One noisy step writes 1000 numbered lines to each stream; the sink
    // receives all 2000 and keeps each stream's own order.
    let mut sink = LogSink::new();
    for i in 0..1000 {
        sink.push(
            "noisy".to_string(),
            StreamKind::Stdout,
            format!("out {}", i),
        );
        sink.push(
            "noisy".to_string(),
            StreamKind::Stderr,
            format!("err {}", i),
        );
    }
    assert_eq!(sink.len(), 2000);

    let outs: Vec<&str> = sink
        .entries
        .iter()
        .filter(|t| t.stream == StreamKind::Stdout && t.step == "noisy")
        .map(|t| t.line.as_str())
        .collect();
    let errs: Vec<&str> = sink
        .entries
        .iter()
        .filter(|t| t.stream == StreamKind::Stderr && t.step == "noisy")
        .map(|t| t.line.as_str())
        .collect();
    assert_eq!(outs.len(), 1000);
    assert_eq!(errs.len(), 1000);
    for i in 0..1000 {
        assert_eq!(outs[i], format!("out {}", i));
        assert_eq!(errs[i], format!("err {}", i));
    }
}

#[test]
fn rendered_lines_are_tagged() {
    let mut sink = LogSink::new();
    sink.push("build".to_string(), StreamKind::Stdout, "compiling".to_string());
    sink.push("build".to_string(), StreamKind::Stderr, "warning: slow".to_string());
    assert_eq!(sink.render(0), "stdout(build): compiling".to_string());
    assert_eq!(sink.render(1), "stderr(build): warning: slow".to_string());
}
