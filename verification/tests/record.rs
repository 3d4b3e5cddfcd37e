use diff_pipeline::channel::ResultChannel;
use diff_pipeline::fault::Fault;
use diff_pipeline::record::{envelopes, Finding, ResultContainer, Tags};
use diff_pipeline::worker::{unit_of_work, Compared, UnitOfWork, WorkStep};

fn finding(detail: &str, fingerprint: &str) -> Finding {
    Finding { detail: detail.to_string(), fingerprint: fingerprint.to_string() }
}

fn tags(names: &[&str]) -> Tags {
    names.iter().map(|name| name.to_string()).collect()
}

#[test]
fn envelope_carries_finding_tags_and_fingerprint() {
    let record_tags = tags(&["capture-7", "staging"]);
    let sealed = ResultContainer::from((finding("UnmatchedQueryParameter(page)", "a1b2"), &record_tags));
    assert_eq!(sealed.0, finding("UnmatchedQueryParameter(page)", "a1b2"));
    assert_eq!(sealed.1, vec!["capture-7".to_string(), "staging".to_string()]);
    assert_eq!(sealed.2, "a1b2");
}

#[test]
fn envelope_keeps_tags_byte_for_byte() {
    let record_tags = tags(&["", " spaced ", "caf\u{e9}", "line\nbreak", "\"quoted\""]);
    let sealed = ResultContainer::from((finding("d", "f"), &record_tags));
    assert_eq!(sealed.1, record_tags);
    assert_eq!(sealed.1[2].as_bytes(), "caf\u{e9}".as_bytes());
}

#[test]
fn envelope_of_untagged_record_has_no_tags() {
    let sealed = ResultContainer::from((finding("d", "f"), &tags(&[])));
    assert!(sealed.1.is_empty());
}

#[test]
fn equal_findings_have_equal_fingerprints_whatever_the_tags() {
    let first = ResultContainer::from((finding("d", "9f"), &tags(&["one"])));
    let second = ResultContainer::from((finding("d", "9f"), &tags(&["two", "three"])));
    assert_eq!(first.2, second.2);
    assert_ne!(first.1, second.1);
}

#[test]
fn envelopes_follow_the_findings_in_order() {
    let record_tags = tags(&["t"]);
    let sealed = envelopes(
        vec![finding("first", "f1"), finding("second", "f2"), finding("third", "f3")],
        &record_tags,
    );
    assert_eq!(sealed.len(), 3);
    assert_eq!(sealed[0], ResultContainer(finding("first", "f1"), tags(&["t"]), "f1".to_string()));
    assert_eq!(sealed[1], ResultContainer(finding("second", "f2"), tags(&["t"]), "f2".to_string()));
    assert_eq!(sealed[2], ResultContainer(finding("third", "f3"), tags(&["t"]), "f3".to_string()));
}

#[test]
fn no_findings_give_no_envelopes() {
    assert_eq!(envelopes(vec![], &tags(&["t"])), vec![]);
}

#[test]
fn repeated_sealing_gives_the_same_fingerprints() {
    let findings = vec![finding("a", "fa"), finding("b", "fb")];
    let once: Vec<String> =
        envelopes(findings.clone(), &tags(&["x"])).into_iter().map(|sealed| sealed.2).collect();
    let again: Vec<String> =
        envelopes(findings, &tags(&["y"])).into_iter().map(|sealed| sealed.2).collect();
    assert_eq!(once, vec!["fa".to_string(), "fb".to_string()]);
    assert_eq!(once, again);
}

#[test]
fn unit_of_an_undecodable_record_is_skipped() {
    let mut channel: ResultChannel<ResultContainer<Finding>> = ResultChannel::new(2);
    let mut work = unit_of_work(Compared::Undecodable);
    assert_eq!(work.remaining(), 0);
    assert_eq!(work.advance(&mut channel), WorkStep::Done(Err(Fault::RecordDecode)));
    assert!(channel.is_empty());
}

#[test]
fn unit_of_a_matching_record_sends_nothing_and_completes() {
    let mut channel: ResultChannel<ResultContainer<Finding>> = ResultChannel::new(2);
    let mut work = unit_of_work(Compared::Findings(vec![], tags(&["t"])));
    assert_eq!(work.advance(&mut channel), WorkStep::Done(Ok(())));
    assert!(channel.is_empty());
}

#[test]
fn unit_sends_each_envelope_in_order_then_completes() {
    let mut channel: ResultChannel<ResultContainer<Finding>> = ResultChannel::new(4);
    let mut work =
        unit_of_work(Compared::Findings(vec![finding("a", "fa"), finding("b", "fb")], tags(&["t"])));
    assert_eq!(work.remaining(), 2);
    assert_eq!(work.advance(&mut channel), WorkStep::Sent);
    assert_eq!(work.remaining(), 1);
    assert_eq!(work.advance(&mut channel), WorkStep::Sent);
    assert_eq!(work.advance(&mut channel), WorkStep::Done(Ok(())));
    assert_eq!(
        channel.try_recv(),
        Ok(ResultContainer(finding("a", "fa"), tags(&["t"]), "fa".to_string()))
    );
    assert_eq!(
        channel.try_recv(),
        Ok(ResultContainer(finding("b", "fb"), tags(&["t"]), "fb".to_string()))
    );
}

#[test]
fn unit_waits_while_the_channel_is_full_and_keeps_its_item() {
    let mut channel: ResultChannel<u32> = ResultChannel::new(1);
    let mut work = UnitOfWork::sending(vec![1, 2]);
    assert_eq!(work.advance(&mut channel), WorkStep::Sent);
    assert_eq!(work.advance(&mut channel), WorkStep::Blocked);
    assert_eq!(work.advance(&mut channel), WorkStep::Blocked);
    assert_eq!(work.remaining(), 1);
    assert_eq!(channel.try_recv(), Ok(1));
    assert_eq!(work.advance(&mut channel), WorkStep::Sent);
    assert_eq!(work.advance(&mut channel), WorkStep::Done(Ok(())));
    assert_eq!(channel.try_recv(), Ok(2));
}

#[test]
fn unit_fails_with_a_delivery_fault_on_a_closed_channel() {
    let mut channel: ResultChannel<u32> = ResultChannel::new(1);
    let mut work = UnitOfWork::sending(vec![1]);
    channel.close();
    assert_eq!(work.advance(&mut channel), WorkStep::Done(Err(Fault::Delivery)));
    assert_eq!(work.remaining(), 1);
    assert!(channel.is_empty());
}

#[test]
fn unit_of_a_failed_comparison_reports_a_comparison_fault() {
    let mut channel: ResultChannel<ResultContainer<Finding>> = ResultChannel::new(2);
    let mut work = unit_of_work(Compared::Failed);
    assert_eq!(work.remaining(), 0);
    assert_eq!(work.advance(&mut channel), WorkStep::Done(Err(Fault::Comparison)));
    assert!(channel.is_empty());
}

#[test]
fn failed_unit_reports_its_fault() {
    let mut channel: ResultChannel<u32> = ResultChannel::new(1);
    let mut work: UnitOfWork<u32> = UnitOfWork::failed(Fault::Comparison);
    assert_eq!(work.advance(&mut channel), WorkStep::Done(Err(Fault::Comparison)));
    let mut skipped: UnitOfWork<u32> = UnitOfWork::skipped();
    assert_eq!(skipped.advance(&mut channel), WorkStep::Done(Err(Fault::RecordDecode)));
}
