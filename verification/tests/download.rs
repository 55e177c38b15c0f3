use std::path::{Path, PathBuf};

use keryx_miner::download::{DownloadEvent, DownloadStep, ModelDownload};

fn download() -> ModelDownload {
    ModelDownload::new("qwen", &PathBuf::from("models"), "qwen3-1.7b")
}

#[test]
fn the_files_are_in_the_models_directory() {
    let mut d = download();
    let dir = Path::new("models").join("qwen3-1.7b");
    assert_eq!(d.dir, dir);
    assert_eq!(d.ok_file, dir.join(".ok"));
    assert_eq!(d.weights(), None);
    d.advance(&DownloadEvent::Files { flag: true, model: true });
    assert_eq!(d.weights(), Some(dir.join("model.gguf")));
}

#[test]
fn a_complete_model_is_left_alone() {
    let mut d = download();
    assert_eq!(d.step, DownloadStep::CheckFiles);
    let m = d.advance(&DownloadEvent::Files { flag: true, model: true });
    assert_eq!(m.as_deref(), Some("ios: model 'qwen' already downloaded"));
    assert_eq!(d.step, DownloadStep::Done(true));
}

#[test]
fn a_download_clears_the_flag_first_and_sets_it_last() {
    for (flag, model) in [(false, false), (true, false), (false, true)] {
        let mut d = download();
        assert_eq!(d.advance(&DownloadEvent::Files { flag, model }), None);
        assert_eq!(d.step, DownloadStep::CreateDir);
        assert_eq!(d.advance(&DownloadEvent::DirCreated(Ok(()))), None);
        assert_eq!(d.step, DownloadStep::ClearFlag);
        assert_eq!(
            d.advance(&DownloadEvent::FlagCleared("https://ipfs/cid".into())).as_deref(),
            Some("ios: downloading model 'qwen' from https://ipfs/cid …")
        );
        assert_eq!(d.step, DownloadStep::Download);
        assert_eq!(d.advance(&DownloadEvent::Downloaded(Ok(()))), None);
        assert_eq!(d.step, DownloadStep::WriteFlag);
        assert_eq!(
            d.advance(&DownloadEvent::FlagWritten).as_deref(),
            Some("ios: model 'qwen' downloaded")
        );
        assert_eq!(d.step, DownloadStep::Done(true));
    }
}

#[test]
fn without_a_directory_there_is_no_download() {
    let mut d = download();
    d.advance(&DownloadEvent::Files { flag: false, model: false });
    assert_eq!(
        d.advance(&DownloadEvent::DirCreated(Err("read-only".into()))).as_deref(),
        Some("ios: model dir create error: read-only")
    );
    assert_eq!(d.step, DownloadStep::Done(false));
}

#[test]
fn a_failed_download_sets_no_flag() {
    let mut d = download();
    d.advance(&DownloadEvent::Files { flag: false, model: false });
    d.advance(&DownloadEvent::DirCreated(Ok(())));
    d.advance(&DownloadEvent::FlagCleared("u".into()));
    assert_eq!(
        d.advance(&DownloadEvent::Downloaded(Err("404".into()))).as_deref(),
        Some("ios: model download failed: 404")
    );
    assert_eq!(d.step, DownloadStep::Done(false));
    assert_eq!(d.weights(), None);
}
