use lib::error::Error;
use lib::research::data::{
    AdditionDataset, DataLoader, DataRegimeReceipt, DataSource, FinitePassesLoader, InMemoryDataset,
};
use lib::research::disjointness::{Disjointness, DisjointnessEvidence, IdentityScheme};
use lib::research::regime::{FinitePasses, SinglePass};
use lib::research::residual::tally_residuals;

fn scheme() -> Result<IdentityScheme, Error> {
    IdentityScheme::new(
        "case-folded-label",
        "1",
        "label after Unicode lowercase canonicalization",
    )
}

#[test]
fn semantic_identity_catches_overlap_hidden_by_distinct_source_ids() -> Result<(), Error> {
    let mut guard = Disjointness::new(scheme()?, &["training", "evaluation"])?;
    guard.observe("evaluation", vec!["same problem".to_owned()])?;
    let error = guard
        .observe("training", vec!["SAME PROBLEM".to_lowercase()])
        .unwrap_err()
        .to_string();
    assert!(error.contains("semantic contamination"), "{error}");
    assert!(error.contains("case-folded-label@1"), "{error}");
    assert!(error.contains("evaluation"), "{error}");
    Ok(())
}

#[test]
fn rejected_batches_are_atomic() -> Result<(), Error> {
    let mut guard = Disjointness::new(scheme()?, &["training", "evaluation"])?;
    guard.observe("evaluation", vec!["held out".to_owned()])?;
    guard
        .observe("training", vec!["new".to_owned(), "held out".to_owned()])
        .unwrap_err();
    let receipt = guard.receipt();
    assert_eq!(receipt.population("training").unwrap().observations, 0);
    assert_eq!(receipt.population("training").unwrap().unique_identities, 0);
    assert!(!receipt.complete);
    Ok(())
}

#[test]
fn receipt_counts_reuse_without_confusing_it_with_cross_population_overlap() -> Result<(), Error> {
    let mut guard = Disjointness::new(scheme()?, &["training", "audit", "evaluation"])?;
    guard.observe("training", vec!["a".to_owned(), "a".to_owned(), "b".to_owned()])?;
    guard.observe("evaluation", vec!["c".to_owned()])?;
    guard.observe("audit", vec!["d".to_owned(), "d".to_owned()])?;
    let receipt = guard.assert_disjoint()?;
    let training = receipt.population("training").unwrap();
    assert_eq!((training.observations, training.unique_identities), (3, 2));
    assert_eq!(training.within_population_repeats, 1);
    assert_eq!(receipt.evidence, DisjointnessEvidence::VerifiedObservations);
    assert!(receipt.complete);
    assert!(receipt.to_string().ends_with("PASS"));
    Ok(())
}

#[test]
fn declarations_and_completion_are_checked() -> Result<(), Error> {
    assert!(IdentityScheme::new("", "1", "sample").is_err());
    assert!(IdentityScheme::new("raw", " 1", "sample").is_err());
    assert!(IdentityScheme::new("raw", "1", "sample\nidentity").is_err());
    assert!(Disjointness::<u8>::new(scheme()?, &["training"]).is_err());
    assert!(Disjointness::<u8>::new(scheme()?, &["training", "training"]).is_err());

    let mut guard = Disjointness::new(scheme()?, &["training", "evaluation"])?;
    assert!(guard.observe("unknown", vec![1_u8]).is_err());
    guard.observe("training", vec![1])?;
    let error = guard.assert_disjoint().unwrap_err().to_string();
    assert!(error.contains("evaluation"), "{error}");
    assert!(guard.receipt().to_string().ends_with("INCOMPLETE"));
    Ok(())
}

#[test]
fn in_memory_sources_validate_ids_and_repeat_only_when_requested() -> Result<(), Error> {
    assert!(InMemoryDataset::<u8>::new(vec![]).is_err());
    assert!(InMemoryDataset::with_ids(vec![10, 20], vec![7]).is_err());

    let mut source = InMemoryDataset::with_ids(vec![10, 20], vec![70, 90])?;
    assert_eq!(source.available(), Some(2));
    let first = source.next_sample()?.expect("first sample");
    assert_eq!((first.id, first.value), (70, 10));
    let second = source.next_sample()?.expect("second sample");
    assert_eq!((second.id, second.value), (90, 20));
    assert!(source.next_sample()?.is_none());

    let mut repeated = InMemoryDataset::with_ids(vec![10, 20], vec![70, 90])?.repeat();
    let observed = (0..5)
        .map(|_| {
            let sample = repeated.next_sample()?.expect("repeating source");
            Ok((sample.id, sample.value))
        })
        .collect::<Result<Vec<_>, Error>>()?;
    assert_eq!(observed, [(70, 10), (90, 20), (70, 10), (90, 20), (70, 10)]);
    Ok(())
}

#[test]
fn finite_source_yields_a_short_final_batch_and_stops() -> Result<(), Error> {
    let source = InMemoryDataset::new(vec![10, 20, 30, 40, 50])?;
    let mut loader = DataLoader::new(source, 3)?;
    let first = loader.next_batch()?.unwrap();
    assert_eq!(first.samples, [10, 20, 30]);
    assert_eq!(first.sample_ids, [0, 1, 2]);
    let last = loader.next_batch()?.unwrap();
    assert_eq!(last.samples, [40, 50]);
    assert_eq!(last.samples_seen_before, 3);
    assert!(loader.next_batch()?.is_none());
    Ok(())
}

#[test]
fn single_pass_loader_reports_progress_without_reusing_samples() -> Result<(), Error> {
    let source = InMemoryDataset::with_ids(vec![10, 20, 30], vec![7, 8, 9])?;
    let mut loader = DataLoader::new(source, 2)?.assert_single_pass()?;

    let first = loader.next_batch()?.expect("first batch");
    assert_eq!(first.samples, [10, 20]);
    assert_eq!(first.sample_ids, [7, 8]);
    assert_eq!(first.samples_seen_before, 0);
    assert!(first.regime.to_string().contains("66.67%"));

    let last = loader.next_batch()?.expect("short final batch");
    assert_eq!(last.samples, [30]);
    assert_eq!(last.samples_seen_before, 2);
    assert!(last.regime.to_string().contains("100.00%"));
    assert_eq!(loader.samples_delivered(), 3);
    assert!(loader.next_batch()?.is_none());
    Ok(())
}

#[test]
fn finite_pass_loader_validates_inputs_and_preserves_custom_id_sets() -> Result<(), Error> {
    assert!(FinitePassesLoader::<u8>::new(vec![], 1, 1, 0).is_err());
    assert!(FinitePassesLoader::with_ids(vec![1, 2], vec![10], 1, 1, 0).is_err());
    assert!(FinitePassesLoader::new(vec![1, 2], 0, 1, 0).is_err());
    assert!(FinitePassesLoader::new(vec![1, 2], 1, 0, 0).is_err());

    let mut loader =
        FinitePassesLoader::with_ids(vec!["a", "b", "c"], vec![100, 200, 300], 8, 2, 17)?;
    for expected_pass in 1..=2 {
        let batch = loader.next_batch()?.expect("complete pass");
        assert_eq!(batch.samples.len(), 3);
        let mut ids = batch.sample_ids;
        ids.sort_unstable();
        assert_eq!(ids, [100, 200, 300]);
        let DataRegimeReceipt::FinitePasses(receipt) = batch.regime else {
            panic!("finite-pass receipt expected");
        };
        assert_eq!(receipt.completed_passes, expected_pass);
    }
    assert!(loader.next_batch()?.is_none());
    Ok(())
}

#[test]
fn finite_pass_loader_never_crosses_a_pass_boundary() -> Result<(), Error> {
    let mut loader = FinitePassesLoader::new(vec![10, 20, 30, 40, 50], 3, 2, 7)?;
    let sizes = [3, 2, 3, 2];
    let mut completed = vec![];
    for size in sizes {
        let batch = loader.next_batch()?.expect("declared batch");
        assert_eq!(batch.samples.len(), size);
        let DataRegimeReceipt::FinitePasses(receipt) = batch.regime else {
            panic!("finite-pass receipt expected");
        };
        completed.push(receipt.completed_passes);
    }
    assert_eq!(completed, [0, 1, 1, 2]);
    assert!(loader.next_batch()?.is_none());
    assert_eq!(loader.samples_delivered(), 10);
    assert_eq!(loader.receipt().observations, 10);
    Ok(())
}

#[test]
fn single_pass_refuses_to_reuse_samples() -> Result<(), Error> {
    assert!(SinglePass::new(0).is_err());
    let mut guard = SinglePass::new(3)?;
    let snapshot = guard.consume(2)?;
    assert_eq!((snapshot.consumed, snapshot.available), (2, Some(3)));
    assert!(guard.consume(2).unwrap_err().to_string().contains("single-pass violation"));
    assert_eq!(guard.consume(1)?.consumed, 3);
    Ok(())
}

#[test]
fn repeating_source_under_single_pass_is_rejected_after_the_population() -> Result<(), Error> {
    let source = InMemoryDataset::new(vec![1, 2])?.repeat();
    let mut loader = DataLoader::new(source, 2)?.assert_single_pass()?;
    assert!(loader.next_batch()?.is_some());
    assert!(loader.next_batch().is_err());
    assert_eq!(loader.samples_delivered(), 2);
    Ok(())
}

#[test]
fn finite_passes_reject_a_repeat_within_a_pass_atomically() -> Result<(), Error> {
    assert!(FinitePasses::new(0, 1).is_err());
    assert!(FinitePasses::new(2, 0).is_err());
    let mut passes = FinitePasses::new(2, 1)?;
    assert!(passes.observe(&[1, 1]).is_err());
    assert_eq!(passes.receipt().observations, 0);
    let receipt = passes.observe(&[1, 2])?;
    assert_eq!((receipt.completed_passes, receipt.observations), (1, 2));
    assert!(receipt.to_string().starts_with("FINITE PASSES STATUS"));
    assert!(receipt.to_string().ends_with("PASS"));
    assert!(passes.observe(&[3]).is_err());
    assert!(passes.finish().is_ok());
    Ok(())
}

#[test]
fn data_regime_receipts_name_the_guarantee_they_record() -> Result<(), Error> {
    assert_eq!(DataRegimeReceipt::Unchecked.to_string(), "DATA REGIME\n\nunchecked");
    let mut single = SinglePass::new(4)?;
    let text = DataRegimeReceipt::SinglePass(single.consume(1)?).to_string();
    assert!(text.contains("SINGLE PASS STATUS"), "{text}");
    assert!(text.contains("coverage:              25.00%"), "{text}");
    let mut passes = FinitePasses::new(2, 1)?;
    let finite = DataRegimeReceipt::FinitePasses(passes.observe(&[1, 2])?).to_string();
    assert!(finite.contains("FINITE PASSES STATUS"), "{finite}");
    Ok(())
}

#[test]
fn repeating_source_batches_wrap_around_with_their_ids() -> Result<(), Error> {
    let source = InMemoryDataset::with_ids(vec![10, 20, 30], vec![7, 8, 9])?.repeat();
    let mut loader = DataLoader::new(source, 2)?;
    let expected = [([10, 20], [7, 8]), ([30, 10], [9, 7]), ([20, 30], [8, 9])];
    for (samples, ids) in expected {
        let batch = loader.next_batch()?.expect("repeating source never ends");
        assert_eq!(batch.samples, samples);
        assert_eq!(batch.sample_ids, ids);
    }
    assert_eq!(loader.samples_delivered(), 6);
    Ok(())
}

#[test]
fn finite_pass_batches_name_every_identity_once_per_pass() -> Result<(), Error> {
    let ids = vec![100, 101, 102, 103, 104];
    let mut loader = FinitePassesLoader::with_ids(vec![0, 1, 2, 3, 4], ids.clone(), 2, 3, 11)?;
    for pass in 0..3 {
        let mut seen = vec![];
        for size in [2, 2, 1] {
            let batch = loader.next_batch()?.expect("declared batch");
            assert_eq!(batch.samples.len(), size);
            for (sample, id) in batch.samples.iter().zip(&batch.sample_ids) {
                assert_eq!(ids[*sample], *id);
            }
            seen.extend(batch.sample_ids);
            assert_eq!(loader.receipt().observations, loader.samples_delivered());
        }
        seen.sort_unstable();
        assert_eq!(seen, ids);
        assert_eq!(loader.receipt().completed_passes, pass + 1);
    }
    assert!(loader.next_batch()?.is_none());
    assert_eq!(loader.samples_delivered(), 15);
    Ok(())
}

#[test]
fn source_kind_and_limit_kind_must_agree() -> Result<(), Error> {
    assert!(DataLoader::new(InMemoryDataset::new(vec![1])?, 0).is_err());
    assert!(DataLoader::new(AdditionDataset::new(1), 2)?.assert_single_pass().is_err());
    Ok(())
}

#[test]
fn generated_batches_carry_consecutive_draw_identities() -> Result<(), Error> {
    let mut loader = DataLoader::new(AdditionDataset::new(3), 2)?;
    let batch = loader.next_batch()?.expect("generated source never ends");
    assert_eq!(batch.sample_ids, [3u128 << 64, (3u128 << 64) | 1]);
    assert_eq!(batch.samples[1].id, (3u128 << 64) | 1);
    let mut draws = AdditionDataset::new(3);
    assert_eq!(batch.samples[0], draws.next_draw()?);
    Ok(())
}

#[test]
fn residual_tally_counts_flagged_observations_or_refuses_the_batch() -> Result<(), Error> {
    assert_eq!(tally_residuals(3, 1, &[true, false, true])?, (6, 3));
    assert_eq!(
        tally_residuals(0, 0, &[]).unwrap_err().to_string(),
        "residual observation batch must be nonempty"
    );
    assert_eq!(
        tally_residuals(usize::MAX, 0, &[false]).unwrap_err().to_string(),
        "residual observation count overflow"
    );
    assert_eq!(
        tally_residuals(0, usize::MAX, &[true]).unwrap_err().to_string(),
        "residual violation count overflow"
    );
    Ok(())
}
