//! Getting the weights of a model: a model that is there already is left alone, and a download
//! leaves a flag behind only when it is complete.
//!
//! The files are a host's business. What it has to do next is decided here.
use std::path::PathBuf;

use vstd::prelude::*;
use vstd::string::*;

use crate::paths::join;
#[allow(unused_imports)]
use crate::paths::is_joined;

verus! {

/// The file with the weights, in the model's directory.
pub const MODEL_FILE: &'static str = "model.gguf";

/// The file that says that the weights are complete.
pub const OK_FILE: &'static str = ".ok";

/// What the host does next.
#[derive(Clone, Copy, PartialEq, Eq, Structural, Debug)]
pub enum DownloadStep {
    /// Look which of the two files there are.
    CheckFiles,
    /// Create the model's directory.
    CreateDir,
    /// Remove the flag, which may be stale.
    ClearFlag,
    /// Download the weights.
    Download,
    /// Write the flag.
    WriteFlag,
    /// Nothing: the weights are there, or they could not be had.
    Done(bool),
}

/// How a step went. An error is given as its text.
pub enum DownloadEvent {
    Files { flag: bool, model: bool },
    DirCreated(Result<(), String>),
    /// The flag is gone, or never was there; the weights are at this URL.
    FlagCleared(String),
    Downloaded(Result<(), String>),
    FlagWritten,
}

/// The download of a model under way.
pub struct ModelDownload {
    pub name: String,
    /// The model's directory, and the two files in it.
    pub dir: PathBuf,
    pub model_file: PathBuf,
    pub ok_file: PathBuf,
    pub step: DownloadStep,
}

impl ModelDownload {
    /// What holds of every download: its files are in the model's directory.
    pub open spec fn wf(&self) -> bool {
        &&& is_joined(self.dir, MODEL_FILE, self.model_file)
        &&& is_joined(self.dir, OK_FILE, self.ok_file)
    }

    /// The download of the model of the given name, into its directory among those of the models.
    pub fn new(name: &str, models_dir: &PathBuf, dir_name: &str) -> (d: ModelDownload)
        ensures
            d.wf(),
            d.name@ == name@,
            is_joined(*models_dir, dir_name, d.dir),
            d.step == DownloadStep::CheckFiles,
    {
        let dir: PathBuf = join(models_dir, dir_name);
        let model_file: PathBuf = join(&dir, MODEL_FILE);
        let ok_file: PathBuf = join(&dir, OK_FILE);
        ModelDownload {
            name: name.to_owned(),
            dir,
            model_file,
            ok_file,
            step: DownloadStep::CheckFiles,
        }
    }

    /// Where the weights are, if the download has ended well.
    pub fn weights(&self) -> (r: Option<PathBuf>)
        ensures
            r == (if self.step == DownloadStep::Done(true) {
                Some(self.model_file)
            } else {
                None::<PathBuf>
            }),
    {
        match self.step {
            DownloadStep::Done(true) => Some(self.model_file.clone()),
            _ => None,
        }
    }

    /// Whether an event tells how the present step went.
    pub open spec fn awaits(&self, event: DownloadEvent) -> bool {
        match self.step {
            DownloadStep::CheckFiles => event is Files,
            DownloadStep::CreateDir => event is DirCreated,
            DownloadStep::ClearFlag => event is FlagCleared,
            DownloadStep::Download => event is Downloaded,
            DownloadStep::WriteFlag => event is FlagWritten,
            DownloadStep::Done(_) => false,
        }
    }

    /// Goes on from how the present step went. The result is what to log.
    pub fn advance(&mut self, event: &DownloadEvent) -> (message: Option<String>)
        requires
            old(self).awaits(*event),
        ensures
            final(self).name == old(self).name,
            final(self).dir == old(self).dir,
            final(self).model_file == old(self).model_file,
            final(self).ok_file == old(self).ok_file,
            final(self).step == step_after(*event),
            match message {
                Some(m) => message_after(old(self).name@, *event) == Some(m@),
                None => message_after(old(self).name@, *event) is None,
            },
    {
        match event {
            DownloadEvent::Files { flag, model } => {
                if *flag && *model {
                    self.step = DownloadStep::Done(true);
                    Some(model_message(self.name.as_str(), "' already downloaded"))
                } else {
                    self.step = DownloadStep::CreateDir;
                    None
                }
            },
            DownloadEvent::DirCreated(r) => match r {
                Ok(_) => {
                    self.step = DownloadStep::ClearFlag;
                    None
                },
                Err(e) => {
                    self.step = DownloadStep::Done(false);
                    let mut m: String = "ios: model dir create error: ".to_owned();
                    m.append(e.as_str());
                    Some(m)
                },
            },
            DownloadEvent::FlagCleared(url) => {
                self.step = DownloadStep::Download;
                let mut m: String = "ios: downloading model '".to_owned();
                m.append(self.name.as_str());
                m.append("' from ");
                m.append(url.as_str());
                m.append(" …");
                Some(m)
            },
            DownloadEvent::Downloaded(r) => match r {
                Ok(_) => {
                    self.step = DownloadStep::WriteFlag;
                    None
                },
                Err(e) => {
                    self.step = DownloadStep::Done(false);
                    let mut m: String = "ios: model download failed: ".to_owned();
                    m.append(e.as_str());
                    Some(m)
                },
            },
            DownloadEvent::FlagWritten => {
                self.step = DownloadStep::Done(true);
                Some(model_message(self.name.as_str(), "' downloaded"))
            },
        }
    }
}

/// A message that begins with a model's name.
fn model_message(name: &str, rest: &str) -> (m: String)
    ensures
        m@ == "ios: model '"@ + name@ + rest@,
{
    let mut m: String = "ios: model '".to_owned();
    m.append(name);
    m.append(rest);
    m
}

/// The step that an event leads to.
pub open spec fn step_after(event: DownloadEvent) -> DownloadStep {
    match event {
        DownloadEvent::Files { flag, model } => if flag && model {
            DownloadStep::Done(true)
        } else {
            DownloadStep::CreateDir
        },
        DownloadEvent::DirCreated(Ok(_)) => DownloadStep::ClearFlag,
        DownloadEvent::DirCreated(Err(_)) => DownloadStep::Done(false),
        DownloadEvent::FlagCleared(_) => DownloadStep::Download,
        DownloadEvent::Downloaded(Ok(_)) => DownloadStep::WriteFlag,
        DownloadEvent::Downloaded(Err(_)) => DownloadStep::Done(false),
        DownloadEvent::FlagWritten => DownloadStep::Done(true),
    }
}

/// What is logged at an event.
pub open spec fn message_after(name: Seq<char>, event: DownloadEvent) -> Option<Seq<char>> {
    match event {
        DownloadEvent::Files { flag, model } => if flag && model {
            Some("ios: model '"@ + name + "' already downloaded"@)
        } else {
            None
        },
        DownloadEvent::DirCreated(Err(e)) => Some("ios: model dir create error: "@ + e@),
        DownloadEvent::FlagCleared(url) => Some(
            "ios: downloading model '"@ + name + "' from "@ + url@ + " …"@,
        ),
        DownloadEvent::Downloaded(Err(e)) => Some("ios: model download failed: "@ + e@),
        DownloadEvent::FlagWritten => Some("ios: model '"@ + name + "' downloaded"@),
        _ => None,
    }
}

/// What a host finds when it does the steps of a download.
pub struct DownloadFacts {
    pub flag: bool,
    pub model: bool,
    pub dir: Result<(), String>,
    pub url: String,
    pub download: Result<(), String>,
}

impl DownloadFacts {
    /// How a step goes.
    pub open spec fn event(self, step: DownloadStep) -> DownloadEvent {
        match step {
            DownloadStep::CheckFiles => DownloadEvent::Files { flag: self.flag, model: self.model },
            DownloadStep::CreateDir => DownloadEvent::DirCreated(self.dir),
            DownloadStep::ClearFlag => DownloadEvent::FlagCleared(self.url),
            DownloadStep::Download => DownloadEvent::Downloaded(self.download),
            _ => DownloadEvent::FlagWritten,
        }
    }
}

/// The step that a download is at when the host has done `k` of them.
pub open spec fn nth_step(facts: DownloadFacts, k: nat) -> DownloadStep
    decreases k,
{
    if k == 0 {
        DownloadStep::CheckFiles
    } else {
        let before = nth_step(facts, (k - 1) as nat);
        if before is Done {
            before
        } else {
            step_after(facts.event(before))
        }
    }
}

/// A download ends within five steps. The weights are there at the end if and only if both files
/// were there, or the directory could be created and the download succeeded. If they were not
/// there, the flag is cleared before the download and written only behind a complete one.
pub proof fn law_download(facts: DownloadFacts)
    ensures
        nth_step(facts, 5) == DownloadStep::Done(
            (facts.flag && facts.model) || (facts.dir is Ok && facts.download is Ok),
        ),
        forall|k: nat|
            k > 0 && nth_step(facts, k) == DownloadStep::Download ==> #[trigger] nth_step(
                facts,
                (k - 1) as nat,
            ) == DownloadStep::ClearFlag,
        forall|k: nat|
            k > 0 && nth_step(facts, k) == DownloadStep::WriteFlag ==> facts.download is Ok
                && #[trigger] nth_step(facts, (k - 1) as nat) == DownloadStep::Download,
        facts.flag && facts.model ==> nth_step(facts, 1) == DownloadStep::Done(true),
{
    reveal_with_fuel(nth_step, 6);
}

/// What follows from each step, on its own: weights are left alone only if both files are there, a
/// directory that cannot be created and a download that fails end it without them, and the flag
/// is written before it ends with them.
pub proof fn law_download_steps(name: Seq<char>, event: DownloadEvent)
    ensures
        step_after(event) == DownloadStep::Done(true) <==> {
            ||| event == DownloadEvent::Files { flag: true, model: true }
            ||| event is FlagWritten
        },
        step_after(event) == DownloadStep::Done(false) <==> {
            ||| event matches DownloadEvent::DirCreated(r) && r is Err
            ||| event matches DownloadEvent::Downloaded(r) && r is Err
        },
        step_after(event) == DownloadStep::CreateDir <==> event is Files && !(event->flag
            && event->model),
        step_after(event) == DownloadStep::ClearFlag <==> event is DirCreated
            && event->DirCreated_0 is Ok,
        step_after(event) == DownloadStep::Download <==> event is FlagCleared,
        step_after(event) == DownloadStep::WriteFlag <==> event is Downloaded
            && event->Downloaded_0 is Ok,
        MODEL_FILE@ == "model.gguf"@,
        OK_FILE@ == ".ok"@,
        message_after(name, event) is None <==> {
            ||| step_after(event) == DownloadStep::CreateDir
            ||| step_after(event) == DownloadStep::ClearFlag
            ||| step_after(event) == DownloadStep::WriteFlag
        },
{
}

/// What is logged of a download: the model by its name and where it comes from, and why it could
/// not be had, as the host said it.
pub proof fn law_download_messages(name: Seq<char>, text: String)
    ensures
        message_after(name, DownloadEvent::Files { flag: true, model: true }) == Some(
            "ios: model '"@ + name + "' already downloaded"@,
        ),
        message_after(name, DownloadEvent::FlagCleared(text)) == Some(
            "ios: downloading model '"@ + name + "' from "@ + text@ + " …"@,
        ),
        message_after(name, DownloadEvent::DirCreated(Err(text))) == Some(
            "ios: model dir create error: "@ + text@,
        ),
        message_after(name, DownloadEvent::Downloaded(Err(text))) == Some(
            "ios: model download failed: "@ + text@,
        ),
        message_after(name, DownloadEvent::FlagWritten) == Some(
            "ios: model '"@ + name + "' downloaded"@,
        ),
{
}

} // verus!
