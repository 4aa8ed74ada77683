use rename_tracking::{
    Action, Calls, Change, ChangeKind, Copies, CopySource, Delegate, Destination, DiffLineStats, EntryKind, Error,
    ObjectId, Outcome, Rewrites, Similarity, Source, SourceKind, Tracker,
};

const NULL_ID: ObjectId = ObjectId { high: 0, low: 0 };

#[test]
fn null_id_is_all_zero() {
    assert_eq!(ObjectId::null(), NULL_ID);
}

fn hex_to_id(hex: &str) -> ObjectId {
    assert_eq!(hex.len(), 40);
    ObjectId {
        high: u128::from_str_radix(&hex[..32], 16).expect("valid hex"),
        low: u32::from_str_radix(&hex[32..], 16).expect("valid hex"),
    }
}

/// The git blob identifiers of the contents these tests use.
fn blob_id(data: &str) -> ObjectId {
    hex_to_id(match data {
        "a" => "2e65efe2a145dda7ee51d1741299f848e5bf752e",
        "a\n" => "78981922613b2afb6025042ff6bd878ac1994e85",
        "ab" => "9ae9e86b7bd6cb1472d9373702d8249973da0832",
        "a\nb" => "0a207c060e61f3b88eaee0a8cd0696f46fb155eb",
        "a\nc" => "817f660e4423f7df2dfc7d4bff0e01b2092a8ce9",
        "first\nsecond\n" => "66a52ee7a1d803dc57859c3e95ac9dcdc87c0164",
        "firt\nsecond\n" => "506b8280305e1b172f75ad3287cc298e909b2562",
        "second\nunrelated\n" => "fc5a765d5a15b5994fce8d93d3e1667261fedb5e",
        other => panic!("no identifier known for {other:?}"),
    })
}

fn addition() -> Change {
    Change::new(ChangeKind::Addition, NULL_ID, EntryKind::Blob)
}

fn deletion() -> Change {
    Change::new(ChangeKind::Deletion, NULL_ID, EntryKind::Blob)
}

fn modification() -> Change {
    Change::new(ChangeKind::Modification, NULL_ID, EntryKind::Blob)
}

/// Line statistics from a longest common subsequence of lines; the
/// similarity is the share of the previous bytes that were kept, over the
/// larger of both sizes.
fn line_stats(old: &[u8], new: &[u8]) -> DiffLineStats {
    let a: Vec<&[u8]> = old.split_inclusive(|b| *b == b'\n').collect();
    let b: Vec<&[u8]> = new.split_inclusive(|b| *b == b'\n').collect();
    let mut lcs = vec![vec![0usize; b.len() + 1]; a.len() + 1];
    for i in (0..a.len()).rev() {
        for j in (0..b.len()).rev() {
            lcs[i][j] = if a[i] == b[j] { lcs[i + 1][j + 1] + 1 } else { lcs[i + 1][j].max(lcs[i][j + 1]) };
        }
    }
    let (mut i, mut j) = (0, 0);
    let (mut removals, mut insertions, mut removed_bytes) = (0u32, 0u32, 0u64);
    while i < a.len() || j < b.len() {
        if i < a.len() && j < b.len() && a[i] == b[j] {
            i += 1;
            j += 1;
        } else if j < b.len() && (i == a.len() || lcs[i][j + 1] >= lcs[i + 1][j]) {
            insertions += 1;
            j += 1;
        } else {
            removals += 1;
            removed_bytes += a[i].len() as u64;
            i += 1;
        }
    }
    DiffLineStats {
        removals,
        insertions,
        before: a.len() as u32,
        after: b.len() as u32,
        similarity: Similarity {
            matching: old.len() as u64 - removed_bytes,
            total: old.len().max(new.len()) as u64,
        },
    }
}

#[derive(Default)]
struct Recorder {
    objects: Vec<(ObjectId, Vec<u8>)>,
    sources: Option<Vec<(Change, String)>>,
    source_requests: usize,
    calls: Vec<(Destination, Option<Source>)>,
    cancel_after: Option<usize>,
}

impl Recorder {
    fn find(&self, id: &ObjectId) -> Result<&[u8], Error> {
        self.objects
            .iter()
            .find(|(oid, _)| oid == id)
            .map(|(_, data)| data.as_slice())
            .ok_or(Error::ObjectNotFound { id: *id })
    }
}

impl Delegate for Recorder {
    fn visit(&mut self, destination: Destination, source: Option<Source>) -> Action {
        self.calls.push((destination, source));
        if Some(self.calls.len()) == self.cancel_after {
            Action::Cancel
        } else {
            Action::Continue
        }
    }

    fn diff_stats(&mut self, previous: &Change, current: &Change) -> Result<DiffLineStats, Error> {
        let old = self.find(&previous.id)?;
        let new = self.find(&current.id)?;
        Ok(line_stats(old, new))
    }

    fn push_sources(&mut self) -> Result<Vec<(Change, String)>, Error> {
        self.source_requests += 1;
        match self.sources.take() {
            Some(sources) => Ok(sources),
            None => panic!("Should not access more sources unless these are specified"),
        }
    }
}

/// Emits through the recording wrapper and hands the recorder back.
fn emit(track: &mut Tracker, recorder: &mut Recorder) -> Result<Outcome, Error> {
    let mut calls = Calls::new(std::mem::take(recorder));
    let out = track.emit(&mut calls);
    *recorder = calls.delegate;
    out
}

/// Resolves through the recording wrapper and hands the recorder back.
fn resolve(track: &mut Tracker, recorder: &mut Recorder) -> Result<Outcome, Error> {
    let mut calls = Calls::new(std::mem::take(recorder));
    let out = track.resolve(&mut calls);
    *recorder = calls.delegate;
    out
}

/// Pushes `(change, location, data)` so that each is retained, with the id of
/// the change set to that of its content.
fn add_retained_blobs(tracker: &mut Tracker, blobs: &[(Change, &str, &str)]) -> Recorder {
    let mut recorder = Recorder::default();
    for (change, location, data) in blobs {
        let mut change = *change;
        change.id = blob_id(data);
        recorder.objects.push((change.id, data.as_bytes().to_vec()));
        assert!(
            tracker.try_push_change(change, location.to_string()).is_none(),
            "input changes must be tracked"
        );
    }
    recorder
}

fn outcome(options: Rewrites) -> Outcome {
    Outcome {
        options,
        num_similarity_checks: 0,
        num_similarity_checks_skipped_for_rename_tracking_due_to_limit: 0,
        num_similarity_checks_skipped_for_copy_tracking_due_to_limit: 0,
    }
}

fn copy_source(id: ObjectId, location: &str, diff: Option<DiffLineStats>) -> Source {
    Source {
        kind: SourceKind::Copy,
        id,
        entry_mode: EntryKind::Blob,
        location: location.into(),
        change: Change { id, ..modification() },
        diff,
    }
}

#[test]
fn rename_by_id() {
    // Limits are only applied when doing rewrite-checks
    for limit in [0, 1] {
        let rewrites = Rewrites { copies: None, percentage: None, limit };
        let mut track = Tracker::new(rewrites);
        assert!(
            track.try_push_change(modification(), "a".into()).is_some(),
            "modifications play no role in rename tracking"
        );
        assert!(track.try_push_change(deletion(), "b".into()).is_none(), "recorded for later matching");
        assert!(track.try_push_change(addition(), "c".into()).is_none(), "recorded for later matching");
        let mut recorder = Recorder::default();
        let out = emit(&mut track, &mut recorder).expect("emit doesn't fail");
        assert_eq!(recorder.calls.len(), 1, "only one rename pair is expected");
        let (dst, src) = &recorder.calls[0];
        assert_eq!(
            src.clone().unwrap(),
            Source {
                entry_mode: EntryKind::Blob,
                id: NULL_ID,
                kind: SourceKind::Rename,
                location: "b".into(),
                change: deletion(),
                diff: None,
            }
        );
        assert_eq!(dst.location, "c");
        assert_eq!(out, outcome(rewrites), "no similarity check was performed, it was all matched by id");
    }
}

#[test]
fn copy_by_similarity_reports_limit_if_encountered() {
    let rewrites = Rewrites {
        copies: Some(Copies { source: CopySource::FromSetOfModifiedFiles, percentage: Some(50) }),
        percentage: None,
        limit: 1,
    };
    let mut track = Tracker::new(rewrites);
    let mut recorder = add_retained_blobs(
        &mut track,
        &[
            (modification(), "a", "a\n"),
            (addition(), "a-cpy-1", "a"),
            (addition(), "a-cpy-2", "a"),
            (modification(), "d", "ab"),
        ],
    );
    let out = emit(&mut track, &mut recorder).expect("emit doesn't fail");
    let locations: Vec<&str> = recorder.calls.iter().map(|(dst, _)| dst.location.as_str()).collect();
    assert_eq!(locations, ["a", "a-cpy-1", "a-cpy-2", "d"], "too many emissions");
    assert!(recorder.calls.iter().all(|(_, src)| src.is_none()));
    assert_eq!(
        out,
        Outcome { num_similarity_checks_skipped_for_copy_tracking_due_to_limit: 4, ..outcome(rewrites) },
        "no similarity check was performed at all - all or nothing"
    );
}

#[test]
fn copy_by_id() {
    // Limits are only applied when doing rewrite-checks
    for limit in [0, 1] {
        let rewrites = Rewrites {
            copies: Some(Copies { source: CopySource::FromSetOfModifiedFiles, percentage: None }),
            percentage: None,
            limit,
        };
        let mut track = Tracker::new(rewrites);
        let mut recorder = add_retained_blobs(
            &mut track,
            &[
                (modification(), "a", "a"),
                (addition(), "a-cpy-1", "a"),
                (addition(), "a-cpy-2", "a"),
                (modification(), "d", "a"),
            ],
        );
        let out = emit(&mut track, &mut recorder).expect("emit doesn't fail");
        let id = hex_to_id("2e65efe2a145dda7ee51d1741299f848e5bf752e");
        let source_a = copy_source(id, "a", None);
        assert_eq!(recorder.calls.len(), 4, "too many emissions");
        // Every modification is emitted once, in push order, even where it
        // also served as a copy source.
        assert_eq!(recorder.calls[0].0.location, "a");
        assert!(recorder.calls[0].1.is_none());
        assert_eq!(
            recorder.calls[1].1.clone().unwrap(),
            source_a,
            "it just finds the first possible match in order, ignoring other candidates"
        );
        assert_eq!(recorder.calls[1].0.location, "a-cpy-1");
        assert_eq!(recorder.calls[2].1.clone().unwrap(), source_a, "copy-sources can be used multiple times");
        assert_eq!(recorder.calls[2].0.location, "a-cpy-2");
        assert!(recorder.calls[3].1.is_none());
        assert_eq!(recorder.calls[3].0.location, "d");
        assert_eq!(out, outcome(rewrites), "no similarity check was performed, it was all matched by id");
    }
}

#[test]
fn copy_by_id_search_in_all_sources() {
    // Limits are only applied when doing rewrite-checks
    for limit in [0, 1] {
        let rewrites = Rewrites {
            copies: Some(Copies { source: CopySource::FromSetOfModifiedFilesAndAllSources, percentage: None }),
            percentage: None,
            limit,
        };
        let mut track = Tracker::new(rewrites);
        let mut recorder =
            add_retained_blobs(&mut track, &[(addition(), "a-cpy-1", "a"), (addition(), "a-cpy-2", "a")]);
        let content_id = hex_to_id("2e65efe2a145dda7ee51d1741299f848e5bf752e");
        let mut c = modification();
        c.id = content_id;
        recorder.sources = Some(vec![(c, "a-src".to_string())]);
        let out = emit(&mut track, &mut recorder).expect("emit doesn't fail");
        let source_a = copy_source(content_id, "a-src", None);
        assert_eq!(recorder.source_requests, 1);
        assert_eq!(recorder.calls.len(), 2, "too many emissions");
        assert_eq!(
            recorder.calls[0].1.clone().unwrap(),
            source_a,
            "it just finds the first possible match in order, ignoring other candidates"
        );
        assert_eq!(recorder.calls[0].0.location, "a-cpy-1");
        assert_eq!(recorder.calls[1].1.clone().unwrap(), source_a, "copy-sources can be used multiple times");
        assert_eq!(recorder.calls[1].0.location, "a-cpy-2");
        assert_eq!(out, outcome(rewrites), "no similarity check was performed, it was all matched by id");
    }
}

#[test]
fn copy_by_50_percent_similarity() {
    let rewrites = Rewrites {
        copies: Some(Copies { source: CopySource::FromSetOfModifiedFiles, percentage: Some(50) }),
        percentage: None,
        limit: 0,
    };
    let mut track = Tracker::new(rewrites);
    let mut recorder = add_retained_blobs(
        &mut track,
        &[
            (modification(), "a", "a\n"),
            (addition(), "a-cpy-1", "a\nb"),
            (addition(), "a-cpy-2", "a\nc"),
            (modification(), "d", "a"),
        ],
    );
    let out = emit(&mut track, &mut recorder).expect("emit doesn't fail");
    let id = hex_to_id("78981922613b2afb6025042ff6bd878ac1994e85");
    let stats = DiffLineStats {
        removals: 0,
        insertions: 1,
        before: 1,
        after: 2,
        similarity: Similarity { matching: 2, total: 3 },
    };
    assert_eq!(stats.similarity.matching as f32 / stats.similarity.total as f32, 0.6666667);
    let source_a = copy_source(id, "a", Some(stats));
    assert_eq!(recorder.calls.len(), 4, "too many emissions");
    assert_eq!(recorder.calls[0].0.location, "a");
    assert!(recorder.calls[0].1.is_none());
    assert_eq!(
        recorder.calls[1].1.clone().unwrap(),
        source_a,
        "it finds the first possible source, no candidates"
    );
    assert_eq!(recorder.calls[1].0.location, "a-cpy-1");
    assert_eq!(recorder.calls[2].1.clone().unwrap(), source_a, "the same source can be reused as well");
    assert_eq!(recorder.calls[2].0.location, "a-cpy-2");
    assert!(recorder.calls[3].1.is_none());
    assert_eq!(recorder.calls[3].0.location, "d");
    // Candidates are tried in push order: "a" is the first and is accepted
    // for both additions, one check each.
    assert_eq!(out, Outcome { num_similarity_checks: 2, ..outcome(rewrites) });
}

#[test]
fn copy_by_id_in_additions_only() {
    let rewrites = Rewrites {
        copies: Some(Copies { source: CopySource::FromSetOfModifiedFiles, percentage: None }),
        percentage: None,
        limit: 0,
    };
    let mut track = Tracker::new(rewrites);
    let mut recorder =
        add_retained_blobs(&mut track, &[(modification(), "a", "a"), (modification(), "a-cpy-1", "a")]);
    let out = emit(&mut track, &mut recorder).expect("emit doesn't fail");
    assert_eq!(recorder.calls.len(), 2, "too many emissions");
    assert!(recorder.calls[0].1.is_none());
    assert_eq!(recorder.calls[0].0.location, "a");
    assert!(recorder.calls[1].1.is_none());
    assert_eq!(
        recorder.calls[1].0.location, "a-cpy-1",
        "copy detection is only done for additions, not within modifications"
    );
    assert_eq!(out, outcome(rewrites), "no similarity check was performed, it was all matched by id");
}

#[test]
fn rename_by_similarity_reports_limit_if_encountered() {
    let rewrites = Rewrites { copies: None, percentage: Some(50), limit: 1 };
    let mut track = Tracker::new(rewrites);
    let mut recorder = add_retained_blobs(
        &mut track,
        &[
            (deletion(), "a", "first\nsecond\n"),
            (addition(), "b", "firt\nsecond\n"),
            (addition(), "c", "second\nunrelated\n"),
        ],
    );
    let out = emit(&mut track, &mut recorder).expect("emit doesn't fail");
    let locations: Vec<&str> = recorder.calls.iter().map(|(dst, _)| dst.location.as_str()).collect();
    assert_eq!(locations, ["a", "b", "c"], "too many elements emitted");
    assert!(recorder.calls.iter().all(|(_, src)| src.is_none()));
    assert_eq!(
        out,
        Outcome { num_similarity_checks_skipped_for_rename_tracking_due_to_limit: 2, ..outcome(rewrites) },
        "no similarity check was performed at all - all or nothing"
    );
}

#[test]
fn rename_by_50_percent_similarity() {
    let rewrites = Rewrites { copies: None, percentage: Some(50), limit: 0 };
    let mut track = Tracker::new(rewrites);
    let mut recorder = add_retained_blobs(
        &mut track,
        &[
            (deletion(), "a", "first\nsecond\n"),
            (addition(), "b", "firt\nsecond\n"),
            (addition(), "c", "second\nunrelated\n"),
        ],
    );
    let out = emit(&mut track, &mut recorder).expect("emit doesn't fail");
    assert_eq!(recorder.calls.len(), 2, "too many elements emitted");
    let id = hex_to_id("66a52ee7a1d803dc57859c3e95ac9dcdc87c0164");
    let stats = DiffLineStats {
        removals: 1,
        insertions: 1,
        before: 2,
        after: 2,
        similarity: Similarity { matching: 7, total: 13 },
    };
    assert_eq!(stats.similarity.matching as f32 / stats.similarity.total as f32, 0.53846157);
    assert_eq!(
        recorder.calls[0].1.clone().unwrap(),
        Source {
            entry_mode: EntryKind::Blob,
            id,
            kind: SourceKind::Rename,
            location: "a".into(),
            change: Change { id, ..deletion() },
            diff: Some(stats),
        }
    );
    assert_eq!(recorder.calls[0].0.location, "b");
    assert!(recorder.calls[1].1.is_none(), "pair already found");
    assert_eq!(recorder.calls[1].0.location, "c");
    assert_eq!(
        out,
        Outcome { num_similarity_checks: 1, ..outcome(rewrites) },
        "the first attempt already yields the one pair, so it doesn't participate anymore"
    );
}

#[test]
fn remove_only() {
    let mut track = Tracker::new(Default::default());
    assert!(track.try_push_change(deletion(), "a".into()).is_none(), "recorded for later matching");
    let mut recorder = Recorder::default();
    let out = emit(&mut track, &mut recorder).expect("emit doesn't fail");
    assert_eq!(recorder.calls.len(), 1);
    let (dst, src) = &recorder.calls[0];
    assert_eq!(*src, None, "there is just a single deletion, no pair");
    assert_eq!(dst.location, "a");
    assert_eq!(dst.change.kind, ChangeKind::Deletion);
    assert_eq!(out, Default::default());
}

#[test]
fn add_only() {
    let mut track = Tracker::new(Default::default());
    assert!(
        track.try_push_change(addition(), "a".into()).is_none(),
        "recorded for later matching - note that this is the starting point of a matching run"
    );
    let mut recorder = Recorder::default();
    let out = emit(&mut track, &mut recorder).expect("emit doesn't fail");
    assert_eq!(recorder.calls.len(), 1);
    let (dst, src) = &recorder.calls[0];
    assert!(src.is_none(), "there is just a single addition, no pair");
    assert_eq!(dst.location, "a");
    assert_eq!(dst.change.kind, ChangeKind::Addition);
    assert_eq!(out, Default::default());
}

#[test]
fn every_change_emitted_once_in_push_order() {
    let rewrites = Rewrites {
        copies: Some(Copies { source: CopySource::FromSetOfModifiedFiles, percentage: None }),
        percentage: None,
        limit: 0,
    };
    let mut track = Tracker::new(rewrites);
    let mut recorder = add_retained_blobs(
        &mut track,
        &[
            (addition(), "x", "ab"),
            (deletion(), "y", "a"),
            (modification(), "z", "a\n"),
            (addition(), "w", "a"),
            (addition(), "v", "a\n"),
        ],
    );
    emit(&mut track, &mut recorder).expect("emit doesn't fail");
    let locations: Vec<&str> = recorder.calls.iter().map(|(dst, _)| dst.location.as_str()).collect();
    // "y" is consumed by the rename to "w" and is not emitted on its own.
    assert_eq!(locations, ["x", "z", "w", "v"]);
    assert_eq!(recorder.calls[2].1.as_ref().unwrap().kind, SourceKind::Rename);
    assert_eq!(recorder.calls[2].1.as_ref().unwrap().location, "y");
    assert_eq!(recorder.calls[3].1.as_ref().unwrap().kind, SourceKind::Copy);
    assert_eq!(recorder.calls[3].1.as_ref().unwrap().location, "z");
}

#[test]
fn cancel_stops_emission() {
    let mut track = Tracker::new(Rewrites { copies: None, percentage: None, limit: 0 });
    let mut recorder =
        add_retained_blobs(&mut track, &[(addition(), "a", "a"), (addition(), "b", "ab"), (deletion(), "c", "a\n")]);
    recorder.cancel_after = Some(1);
    emit(&mut track, &mut recorder).expect("emit doesn't fail");
    assert_eq!(recorder.calls.len(), 1);
    assert_eq!(recorder.calls[0].0.location, "a");
}

#[test]
fn identity_is_preferred_over_similarity() {
    let rewrites = Rewrites { copies: None, percentage: Some(50), limit: 0 };
    let mut track = Tracker::new(rewrites);
    let mut recorder = add_retained_blobs(
        &mut track,
        &[
            (deletion(), "similar", "firt\nsecond\n"),
            (deletion(), "same", "first\nsecond\n"),
            (addition(), "new", "first\nsecond\n"),
        ],
    );
    let out = emit(&mut track, &mut recorder).expect("emit doesn't fail");
    let (dst, src) = recorder.calls.iter().find(|(dst, _)| dst.location == "new").unwrap();
    let src = src.as_ref().unwrap();
    assert_eq!(dst.location, "new");
    assert_eq!(src.location, "same");
    assert_eq!(src.diff, None);
    assert_eq!(out.num_similarity_checks, 0);
}

#[test]
fn rename_source_is_consumed_once() {
    let mut track = Tracker::new(Rewrites { copies: None, percentage: None, limit: 0 });
    let mut recorder = add_retained_blobs(
        &mut track,
        &[
            (deletion(), "old-1", "a"),
            (deletion(), "old-2", "a"),
            (addition(), "new-1", "a"),
            (addition(), "new-2", "a"),
            (addition(), "new-3", "a"),
        ],
    );
    emit(&mut track, &mut recorder).expect("emit doesn't fail");
    let pairs: Vec<(&str, Option<&str>)> = recorder
        .calls
        .iter()
        .map(|(dst, src)| (dst.location.as_str(), src.as_ref().map(|s| s.location.as_str())))
        .collect();
    assert_eq!(pairs, [("new-1", Some("old-1")), ("new-2", Some("old-2")), ("new-3", None)]);
}

#[test]
fn without_copies_modifications_are_not_sources() {
    let mut track = Tracker::new(Rewrites { copies: None, percentage: Some(50), limit: 0 });
    let returned = track.try_push_change(Change { id: blob_id("a"), ..modification() }, "m".into());
    assert_eq!(returned, Some(Change { id: blob_id("a"), ..modification() }));
    let mut recorder = add_retained_blobs(&mut track, &[(addition(), "n", "a")]);
    recorder.objects.push((blob_id("a"), b"a".to_vec()));
    let out = emit(&mut track, &mut recorder).expect("emit doesn't fail");
    assert_eq!(recorder.calls.len(), 1);
    assert_eq!(recorder.calls[0].0.location, "n");
    assert!(recorder.calls[0].1.is_none());
    assert_eq!(out.num_similarity_checks, 0);
}

#[test]
fn all_sources_are_not_asked_when_everything_matched() {
    let rewrites = Rewrites {
        copies: Some(Copies { source: CopySource::FromSetOfModifiedFilesAndAllSources, percentage: None }),
        percentage: None,
        limit: 0,
    };
    let mut track = Tracker::new(rewrites);
    let mut recorder = add_retained_blobs(&mut track, &[(modification(), "m", "a"), (addition(), "n", "a")]);
    emit(&mut track, &mut recorder).expect("emit doesn't fail");
    assert_eq!(recorder.source_requests, 0);
    assert_eq!(recorder.calls[1].1.as_ref().unwrap().location, "m");
}

#[test]
fn missing_object_fails_emission() {
    let mut track = Tracker::new(Rewrites { copies: None, percentage: Some(50), limit: 0 });
    let mut recorder =
        add_retained_blobs(&mut track, &[(deletion(), "a", "first\nsecond\n"), (addition(), "b", "firt\nsecond\n")]);
    recorder.objects.remove(0);
    let err = emit(&mut track, &mut recorder).unwrap_err();
    assert_eq!(err, Error::ObjectNotFound { id: blob_id("first\nsecond\n") });
    assert!(recorder.calls.is_empty());
}

struct NoSources;

impl Delegate for NoSources {
    fn visit(&mut self, _destination: Destination, _source: Option<Source>) -> Action {
        Action::Continue
    }

    fn diff_stats(&mut self, _previous: &Change, current: &Change) -> Result<DiffLineStats, Error> {
        Err(Error::ObjectNotFound { id: current.id })
    }

    fn push_sources(&mut self) -> Result<Vec<(Change, String)>, Error> {
        Err(Error::SourcesUnavailable)
    }
}

#[test]
fn unavailable_sources_fail_emission() {
    let rewrites = Rewrites {
        copies: Some(Copies { source: CopySource::FromSetOfModifiedFilesAndAllSources, percentage: None }),
        percentage: None,
        limit: 0,
    };
    let mut track = Tracker::new(rewrites);
    track.try_push_change(Change { id: blob_id("a"), ..addition() }, "n".into());
    let mut calls = Calls::new(NoSources);
    assert_eq!(track.emit(&mut calls), Err(Error::SourcesUnavailable));
}

#[test]
fn empty_tracker_emits_nothing() {
    let rewrites = Rewrites { copies: None, percentage: Some(50), limit: 1 };
    let mut recorder = Recorder::default();
    let out = emit(&mut Tracker::new(rewrites), &mut recorder).expect("emit doesn't fail");
    assert!(recorder.calls.is_empty());
    assert_eq!(out, outcome(rewrites));
}

#[test]
fn limit_equal_to_estimate_still_checks() {
    let rewrites = Rewrites { copies: None, percentage: Some(50), limit: 2 };
    let mut track = Tracker::new(rewrites);
    let mut recorder = add_retained_blobs(
        &mut track,
        &[
            (deletion(), "a", "first\nsecond\n"),
            (addition(), "b", "firt\nsecond\n"),
            (addition(), "c", "second\nunrelated\n"),
        ],
    );
    let out = emit(&mut track, &mut recorder).expect("emit doesn't fail");
    assert_eq!(out.num_similarity_checks, 1);
    assert_eq!(out.num_similarity_checks_skipped_for_rename_tracking_due_to_limit, 0);
    assert_eq!(recorder.calls[0].1.as_ref().unwrap().location, "a");
}

#[test]
fn similarity_threshold_is_inclusive() {
    let half = Similarity { matching: 1, total: 2 };
    assert!(half.meets(50));
    assert!(!half.meets(51));
    assert!(Similarity { matching: 0, total: 0 }.meets(100));
    assert!(!Similarity { matching: 7, total: 13 }.meets(54));
    assert!(Similarity { matching: 7, total: 13 }.meets(53));
}

#[test]
fn default_rewrites() {
    let rewrites = Rewrites::default();
    assert_eq!(rewrites, Rewrites { copies: None, percentage: Some(50), limit: 1000 });
    assert_eq!(Outcome::default(), outcome(rewrites));
}

#[test]
fn resolve_then_inspect() {
    let mut track = Tracker::new(Rewrites { copies: None, percentage: None, limit: 0 });
    let mut recorder = add_retained_blobs(&mut track, &[(deletion(), "a", "a"), (addition(), "b", "a")]);
    resolve(&mut track, &mut recorder).expect("resolve doesn't fail");
    assert_eq!(track.emission_order(), vec![1]);
    assert_eq!(track.destination(1).location, "b");
    assert_eq!(track.source_for(1).unwrap().location, "a");
    assert!(track.source_for(0).is_none());
    assert_eq!(track.find_rename_by_id(blob_id("a")), None);
    assert_eq!(track.estimate_checks(SourceKind::Rename), 0);
}

#[test]
fn similarity_steps_decide_exactly() {
    let mut track = Tracker::new(Rewrites { copies: None, percentage: Some(60), limit: 0 });
    let mut recorder =
        add_retained_blobs(&mut track, &[(deletion(), "a", "first\nsecond\n"), (addition(), "b", "firt\nsecond\n")]);
    resolve(&mut track, &mut recorder).expect("resolve doesn't fail");
    assert_eq!(track.next_candidate(SourceKind::Rename, 0), Some(0));
    assert_eq!(track.next_candidate(SourceKind::Rename, 1), None);
    assert_eq!(track.next_candidate(SourceKind::Copy, 0), None);
    let stats = |matching, total| DiffLineStats {
        removals: 1,
        insertions: 1,
        before: 2,
        after: 2,
        similarity: Similarity { matching, total },
    };
    assert!(!track.record_similarity(SourceKind::Rename, 1, 0, stats(1, 2)));
    assert!(track.source_for(1).is_none());
    assert!(track.record_similarity(SourceKind::Rename, 1, 0, stats(3, 5)));
    let src = track.source_for(1).unwrap();
    assert_eq!(src.kind, SourceKind::Rename);
    assert_eq!(src.location, "a");
    assert_eq!(src.diff, Some(stats(3, 5)));
    assert_eq!(track.next_candidate(SourceKind::Rename, 0), None, "the deletion is consumed");
    assert_eq!(track.emission_order(), vec![1]);
}

#[test]
fn emissions_list_what_the_visitor_receives() {
    let mut track = Tracker::new(Rewrites { copies: None, percentage: None, limit: 0 });
    let mut recorder =
        add_retained_blobs(&mut track, &[(addition(), "x", "ab"), (deletion(), "a", "a"), (addition(), "b", "a")]);
    resolve(&mut track, &mut recorder).expect("resolve doesn't fail");
    let pairs = track.emissions();
    let locations: Vec<(&str, Option<&str>)> = pairs
        .iter()
        .map(|(dst, src)| (dst.location.as_str(), src.as_ref().map(|s| s.location.as_str())))
        .collect();
    assert_eq!(locations, [("x", None), ("b", Some("a"))]);
}

#[test]
fn similarity_step_counts_and_moves_on() {
    let mut track = Tracker::new(Rewrites { copies: None, percentage: Some(50), limit: 0 });
    add_retained_blobs(&mut track, &[(deletion(), "a", "a"), (deletion(), "c", "ab"), (addition(), "b", "a\nb")]);
    let mut out = Outcome::default();
    // Identity matching only: no similarity pass has run yet.
    track.match_by_id();
    let low = DiffLineStats { removals: 1, insertions: 2, before: 1, after: 2, similarity: Similarity { matching: 0, total: 3 } };
    assert_eq!(track.similarity_step(SourceKind::Rename, 2, 0, low, &mut out), Some(1));
    assert_eq!(out.num_similarity_checks, 1);
    let high = DiffLineStats { similarity: Similarity { matching: 2, total: 3 }, ..low };
    assert_eq!(track.similarity_step(SourceKind::Rename, 2, 1, high, &mut out), None);
    assert_eq!(out.num_similarity_checks, 2);
    assert_eq!(track.source_for(2).unwrap().location, "c");
}

#[test]
fn calls_record_what_the_delegate_received() {
    let mut track = Tracker::new(Rewrites { copies: None, percentage: None, limit: 0 });
    let recorder = add_retained_blobs(&mut track, &[(addition(), "x", "ab"), (addition(), "y", "a")]);
    let mut calls = Calls::new(recorder);
    let out = track.emit(&mut calls).expect("emit doesn't fail");
    assert_eq!(out.num_similarity_checks, 0);
    assert_eq!(calls.delegate.source_requests, 0);
    let locations: Vec<&str> = calls.delegate.calls.iter().map(|(dst, _)| dst.location.as_str()).collect();
    assert_eq!(locations, ["x", "y"]);
}
