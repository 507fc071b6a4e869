//! Uninstalling, step by step: the questions, the refusal of an unsafe directory,
//! and what is removed.
use vstd::prelude::*;

use crate::chars;
use crate::cli::setup;
use crate::cli::setup::{
    answer_or, is_agreed, is_unsafe_dir, mode_chosen, removal_models, removals, removed_text,
    uninstall_options, Removal, UninstallMode,
};
use crate::cli::{complain, line_models, no_lines, pair, say, Line, LineModel};

verus! {

/// What uninstalling waits for.
#[derive(Debug, Clone, Copy, PartialEq, Eq, Structural)]
pub enum UninstallStage {
    /// The choice of a mode.
    Choose,
    /// The agreement to go on.
    Confirm,
    /// The removal.
    Remove,
    /// Nothing: it has ended with a code.
    Over(i32),
}

/// Uninstalling from a directory: whether nothing is asked, the mode, what it
/// waits for, and the lines that the last step printed.
#[derive(Debug)]
pub struct Uninstall {
    pub dir: String,
    pub yes: bool,
    pub mode: UninstallMode,
    pub stage: UninstallStage,
    pub lines: Vec<Line>,
}

/// The contents of uninstalling.
pub ghost struct UninstallModel {
    pub dir: Seq<char>,
    pub yes: bool,
    pub mode: UninstallMode,
    pub stage: UninstallStage,
    pub lines: Seq<LineModel>,
}

impl View for Uninstall {
    type V = UninstallModel;

    open spec fn view(&self) -> UninstallModel {
        UninstallModel {
            dir: self.dir@,
            yes: self.yes,
            mode: self.mode,
            stage: self.stage,
            lines: line_models(self.lines@),
        }
    }
}

/// The modes as they are offered.
pub open spec fn mode_menu() -> Seq<LineModel> {
    seq![
        LineModel::Printed("Choose uninstall mode:"@),
        LineModel::Printed("1. keep data: remove binary and shell profile block only"@),
        LineModel::Printed("2. remove user data: remove config, memory, skills, and workspace"@),
        LineModel::Printed("3. purge: remove the entire minipaw folder"@),
    ]
}

impl UninstallModel {
    /// Nothing is removed from an unsafe directory.
    pub open spec fn wf(self) -> bool {
        self.stage is Confirm || self.stage is Remove ==> !is_unsafe_dir(self.dir)
    }

    /// Uninstalling with the mode settled: an unsafe directory is refused.
    pub open spec fn with_mode(self, mode: UninstallMode) -> UninstallModel {
        if is_unsafe_dir(self.dir) {
            UninstallModel {
                mode,
                stage: UninstallStage::Over(2),
                lines: seq![
                    LineModel::Complaint("refusing to uninstall from unsafe path: "@ + self.dir),
                ],
                ..self
            }
        } else {
            UninstallModel {
                mode,
                stage: if self.yes {
                    UninstallStage::Remove
                } else {
                    UninstallStage::Confirm
                },
                lines: seq![
                    LineModel::Printed("minipaw uninstall"@),
                    LineModel::Printed("install_dir="@ + self.dir),
                    LineModel::Printed("mode="@ + mode.name()),
                ],
                ..self
            }
        }
    }

    /// Uninstalling at its start.
    pub open spec fn begun(dir: Seq<char>, args: Seq<Seq<char>>) -> UninstallModel {
        let m = UninstallModel {
            dir,
            yes: false,
            mode: UninstallMode::KeepData,
            stage: UninstallStage::Choose,
            lines: mode_menu(),
        };
        match uninstall_options(args, 0, None, false) {
            Err(reply) => UninstallModel {
                stage: UninstallStage::Over(reply.code as i32),
                lines: reply.lines,
                ..m
            },
            Ok((mode, yes)) => match mode {
                Some(mode) => UninstallModel { yes, ..m }.with_mode(mode),
                None => if yes {
                    UninstallModel { yes, ..m }.with_mode(UninstallMode::KeepData)
                } else {
                    m
                },
            },
        }
    }

    /// Uninstalling after an answer to its question.
    pub open spec fn after_answer(self, typed: Seq<char>) -> UninstallModel {
        match self.stage {
            UninstallStage::Choose => match mode_chosen(answer_or("1"@, typed)) {
                Some(mode) => self.with_mode(mode),
                None => UninstallModel {
                    lines: seq![LineModel::Complaint("enter 1, 2, or 3"@)],
                    ..self
                },
            },
            UninstallStage::Confirm => if is_agreed(answer_or("no"@, typed)) {
                UninstallModel { stage: UninstallStage::Remove, lines: seq![], ..self }
            } else {
                UninstallModel {
                    stage: UninstallStage::Over(0),
                    lines: seq![LineModel::Printed("uninstall cancelled"@)],
                    ..self
                }
            },
            _ => self,
        }
    }

    /// Uninstalling after the removal.
    pub open spec fn after_removal(self) -> UninstallModel {
        UninstallModel {
            stage: UninstallStage::Over(0),
            lines: seq![LineModel::Printed(removed_text(self.mode))],
            ..self
        }
    }
}

impl Uninstall {
    pub open spec fn wf(&self) -> bool {
        self@.wf()
    }

    fn settle(&mut self, mode: UninstallMode)
        ensures
            final(self)@ == old(self)@.with_mode(mode),
    {
        self.mode = mode;
        let mut lines = no_lines();
        if setup::unsafe_dir(self.dir.as_str()) {
            complain(
                &mut lines,
                pair("refusing to uninstall from unsafe path: ", self.dir.as_str()),
            );
            self.stage = UninstallStage::Over(2);
        } else {
            say(&mut lines, "minipaw uninstall".to_owned());
            say(&mut lines, pair("install_dir=", self.dir.as_str()));
            say(&mut lines, pair("mode=", mode.label()));
            self.stage = if self.yes {
                UninstallStage::Remove
            } else {
                UninstallStage::Confirm
            };
        }
        self.lines = lines;
        assert(self@.lines =~= old(self)@.with_mode(mode).lines);
    }

    /// Starts uninstalling from a directory with the arguments behind `uninstall`.
    pub fn start(dir: &str, args: &Vec<String>) -> (r: Self)
        ensures
            r@ == UninstallModel::begun(dir@, chars::owned_texts(args@)),
            r.wf(),
    {
        let mut lines = no_lines();
        say(&mut lines, "Choose uninstall mode:".to_owned());
        say(&mut lines, "1. keep data: remove binary and shell profile block only".to_owned());
        say(
            &mut lines,
            "2. remove user data: remove config, memory, skills, and workspace".to_owned(),
        );
        say(&mut lines, "3. purge: remove the entire minipaw folder".to_owned());
        assert(line_models(lines@) =~= mode_menu());
        let mut r = Uninstall {
            dir: dir.to_owned(),
            yes: false,
            mode: UninstallMode::KeepData,
            stage: UninstallStage::Choose,
            lines,
        };
        match setup::parse_uninstall_args(args) {
            Err(reply) => {
                r.stage = UninstallStage::Over(reply.code);
                r.lines = reply.lines;
            },
            Ok((mode, yes)) => match setup::settled_mode(mode, yes) {
                Some(mode) => {
                    r.yes = yes;
                    r.settle(mode);
                },
                None => {},
            },
        }
        r
    }

    /// The question that is asked; empty where none is.
    pub fn label(&self) -> (r: &'static str)
        ensures
            r@ == (match self.stage {
                UninstallStage::Choose => "mode (1/2/3)"@,
                UninstallStage::Confirm => "continue?"@,
                _ => ""@,
            }),
    {
        match self.stage {
            UninstallStage::Choose => "mode (1/2/3)",
            UninstallStage::Confirm => "continue?",
            _ => "",
        }
    }

    /// The answer where nothing is typed.
    pub fn default_answer(&self) -> (r: &'static str)
        ensures
            r@ == (match self.stage {
                UninstallStage::Choose => "1"@,
                UninstallStage::Confirm => "no"@,
                _ => ""@,
            }),
    {
        match self.stage {
            UninstallStage::Choose => "1",
            UninstallStage::Confirm => "no",
            _ => "",
        }
    }

    /// Takes up an answer.
    pub fn answer(&mut self, typed: &str)
        requires
            old(self).wf(),
        ensures
            final(self)@ == old(self)@.after_answer(typed@),
            final(self).wf(),
    {
        match self.stage {
            UninstallStage::Choose => {
                match setup::choose_mode(setup::answer_to("1", typed).as_str()) {
                    Some(mode) => {
                        self.settle(mode);
                    },
                    None => {
                        let mut lines = no_lines();
                        complain(&mut lines, "enter 1, 2, or 3".to_owned());
                        self.lines = lines;
                        assert(self@.lines =~= old(self)@.after_answer(typed@).lines);
                    },
                }
            },
            UninstallStage::Confirm => {
                let mut lines = no_lines();
                if setup::agreed(setup::answer_to("no", typed).as_str()) {
                    self.stage = UninstallStage::Remove;
                } else {
                    say(&mut lines, "uninstall cancelled".to_owned());
                    self.stage = UninstallStage::Over(0);
                }
                self.lines = lines;
                assert(self@.lines =~= old(self)@.after_answer(typed@).lines);
            },
            _ => {},
        }
    }

    /// What is to be removed.
    pub fn removals(&self) -> (r: Vec<Removal>)
        ensures
            removal_models(r@) == (if self.stage is Remove {
                removals(self.mode, self.dir@)
            } else {
                seq![]
            }),
    {
        if self.stage == UninstallStage::Remove {
            let (list, _) = setup::plan_removal(self.mode, self.dir.as_str());
            list
        } else {
            let none: Vec<Removal> = Vec::new();
            assert(removal_models(none@) =~= seq![]);
            none
        }
    }

    /// Takes up that everything was removed.
    pub fn removed(&mut self)
        requires
            old(self).stage is Remove,
        ensures
            final(self)@ == old(self)@.after_removal(),
            final(self).wf(),
    {
        let (_, summary) = setup::plan_removal(self.mode, self.dir.as_str());
        let mut lines = no_lines();
        say(&mut lines, summary.to_owned());
        self.lines = lines;
        self.stage = UninstallStage::Over(0);
        assert(self@.lines =~= old(self)@.after_removal().lines);
    }
}

/// Nothing is removed from an unsafe directory, and without `--yes` nothing is
/// removed before someone has agreed to it.
pub proof fn law_removal_is_agreed(
    dir: Seq<char>,
    args: Seq<Seq<char>>,
    m: UninstallModel,
    typed: Seq<char>,
)
    requires
        m.wf(),
    ensures
        UninstallModel::begun(dir, args).wf(),
        UninstallModel::begun(dir, args).stage is Remove ==> UninstallModel::begun(dir, args).yes,
        m.after_answer(typed).wf(),
        m.after_answer(typed).stage is Remove && !m.yes && !(m.stage is Remove)
            ==> m.stage is Confirm && is_agreed(answer_or("no"@, typed)),
        m.stage is Remove ==> !is_unsafe_dir(m.dir),
{
}

}
