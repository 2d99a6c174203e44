use fgbgg::config::Preprocess;
use fgbgg::preprocess::{
    check_supported_target_format, converted_file_name, is_supported_image_format, preprocess,
    reformat_then_rename_all, PreprocessPlan, RenameRun, RenameStep,
};

#[test]
fn target_formats() {
    for f in ["jpg", "jpeg", "png", "webp", "PNG", "JpEg", "WEBP"].iter() {
        assert!(check_supported_target_format(f), "{}", f);
    }
    for f in ["gif", "bmp", "", "png ", ".png", "tiff"].iter() {
        assert!(!check_supported_target_format(f), "{}", f);
    }
}

#[test]
fn source_formats() {
    for f in ["jpg", "png", "jpeg", "webp", "gif"].iter() {
        assert!(is_supported_image_format(f));
    }
    for f in ["PNG", "bmp", "", "txt"].iter() {
        assert!(!is_supported_image_format(f));
    }
}

#[test]
fn converted_names() {
    assert_eq!(converted_file_name(0, "png"), "0.png");
    assert_eq!(converted_file_name(42, "JPG"), "42.JPG");
}

#[test]
fn preprocess_plans() {
    let clone = Preprocess { format_target: "png".to_string(), clone: true };
    let convert = Preprocess { format_target: "png".to_string(), clone: false };
    assert_eq!(preprocess(&clone, true, true), PreprocessPlan::CloneSources);
    assert_eq!(preprocess(&clone, false, false), PreprocessPlan::CloneSources);
    assert_eq!(preprocess(&convert, true, true), PreprocessPlan::ReformatSources);
    assert_eq!(preprocess(&convert, true, false), PreprocessPlan::InvalidSourcePath);
    assert_eq!(preprocess(&convert, false, true), PreprocessPlan::InvalidSourcePath);
}

#[test]
fn unsupported_target_starts_nothing() {
    assert_eq!(reformat_then_rename_all(3, "bmp"), None);
    assert_eq!(
        reformat_then_rename_all(3, "Png"),
        Some(RenameRun { file_count: 3, file: 0, name: 0 })
    );
}

#[test]
fn renaming_skips_failed_numbers() {
    let mut run = reformat_then_rename_all(3, "png").unwrap();
    // file 0 saved as 0, file 1 fails twice then is saved as 3, file 2 saved as 4
    let outcomes = [true, false, false, true, true];
    let mut saved = Vec::new();
    for ok in outcomes.iter() {
        match run.next_step() {
            RenameStep::Rename { file, name } => {
                if *ok {
                    saved.push((file, name));
                }
                run.record(*ok);
            }
            RenameStep::Finished => panic!("finished early"),
        }
    }
    assert_eq!(run.next_step(), RenameStep::Finished);
    assert_eq!(saved, vec![(0, 0), (1, 3), (2, 4)]);
}

#[test]
fn empty_directory_finishes_at_once() {
    let run = reformat_then_rename_all(0, "jpg").unwrap();
    assert_eq!(run.next_step(), RenameStep::Finished);
}
