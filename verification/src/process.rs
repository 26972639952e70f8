//! Processes: how one is started, and what is known of one while it runs and when it has ended.
use vstd::prelude::*;

use crate::paging::copy_range;
use crate::text::join2;
use crate::text_map::TextMap;

verus! {

/// A command that is to run.
#[derive(Debug)]
pub struct ProcessRequest {
    pub command: String,
    pub current_dir: String,
    pub environment: TextMap<String>,
}

#[derive(Clone, Copy, Debug, PartialEq, Eq, Structural)]
pub struct ProcessStatus {
    pub success: bool,
}

/// The script that the shell runs for a command: what goes to the one output goes to the other too.
pub fn shell_script(command: &str) -> (r: String)
    ensures
        r@ == "exec 2>&1\n"@ + command@,
{
    join2("exec 2>&1\n", command)
}

/// The group of a process that runs: who is to be signalled when it is killed.
#[derive(Clone, Copy, Debug, PartialEq, Eq, Structural)]
pub struct ProcessGroup {
    /// Whether the process may still run.
    pub armed: bool,
    pub id: Option<i32>,
}

impl ProcessGroup {
    /// The group of a process that was started under `child_id`; a number that is no process
    /// number counts as none.
    pub fn new(child_id: Option<u32>) -> (r: ProcessGroup)
        ensures
            r.armed,
            r.id == match child_id {
                Some(id) => if id <= i32::MAX {
                    Some(id as i32)
                } else {
                    None
                },
                None => None,
            },
            r.id is Some ==> r.id->0 >= 0,
    {
        ProcessGroup {
            armed: true,
            id: match child_id {
                Some(id) => if id <= i32::MAX as u32 {
                    Some(id as i32)
                } else {
                    None
                },
                None => None,
            },
        }
    }

    /// The group when nobody is to be signalled any more.
    pub open spec fn disarmed(self) -> ProcessGroup {
        ProcessGroup { armed: false, id: self.id }
    }

    /// Whom to signal so that the whole group stops, if anybody.
    pub open spec fn target(self) -> Option<int> {
        match self.id {
            Some(id) => if self.armed {
                Some(-id)
            } else {
                None
            },
            None => None,
        }
    }

    /// The process has been waited for: its number may belong to another one from now on.
    pub fn waited(&mut self)
        ensures
            *final(self) == old(self).disarmed(),
    {
        self.armed = false;
    }

    /// Whom to signal so that the whole group stops.
    pub fn kill(&mut self) -> (r: Option<i32>)
        requires
            old(self).id is Some ==> old(self).id->0 >= 0,
        ensures
            *final(self) == old(self).disarmed(),
            match r {
                Some(target) => old(self).target() == Some(target as int),
                None => old(self).target() is None,
            },
    {
        let armed = self.armed;
        self.armed = false;
        match self.id {
            Some(id) => if armed {
                Some(-id)
            } else {
                None
            },
            None => None,
        }
    }
}

/// How a process ended.
#[derive(Debug)]
pub enum VirtualExit {
    Status(ProcessStatus),
    Error(String),
}

/// How a process ended.
pub enum ExitModel {
    Status(ProcessStatus),
    Error(Seq<char>),
}

impl View for VirtualExit {
    type V = ExitModel;

    open spec fn view(&self) -> ExitModel {
        match self {
            VirtualExit::Status(status) => ExitModel::Status(*status),
            VirtualExit::Error(message) => ExitModel::Error(message@),
        }
    }
}

impl Clone for VirtualExit {
    fn clone(&self) -> (r: VirtualExit)
        ensures
            r@ == self@,
    {
        match self {
            VirtualExit::Status(status) => VirtualExit::Status(*status),
            VirtualExit::Error(message) => VirtualExit::Error(message.clone()),
        }
    }
}

/// A process whose output and end are given by hand.
#[derive(Debug)]
pub struct VirtualProcess {
    printed: Vec<Vec<u8>>,
    open: bool,
    exit: Option<VirtualExit>,
    killed: bool,
}

/// What is known of a process.
pub struct ProcessModel {
    pub printed: Seq<Seq<u8>>,
    pub open: bool,
    pub exit: Option<ExitModel>,
    pub killed: bool,
}

impl View for VirtualProcess {
    type V = ProcessModel;

    closed spec fn view(&self) -> ProcessModel {
        ProcessModel {
            printed: self.printed@.map_values(|bytes: Vec<u8>| bytes@),
            open: self.open,
            exit: match self.exit {
                Some(exit) => Some(exit@),
                None => None,
            },
            killed: self.killed,
        }
    }
}

/// A process that has been started.
pub open spec fn started() -> ProcessModel {
    ProcessModel { printed: Seq::empty(), open: true, exit: None, killed: false }
}

/// A process that has printed something: nothing comes of it once the process has ended.
pub open spec fn after_output(process: ProcessModel, bytes: Seq<u8>) -> ProcessModel {
    if process.open {
        ProcessModel { printed: process.printed.push(bytes), ..process }
    } else {
        process
    }
}

/// A process that has ended: how it ended first is what counts.
pub open spec fn after_exit(process: ProcessModel, exit: ExitModel) -> ProcessModel {
    if process.exit is None {
        ProcessModel { exit: Some(exit), open: false, ..process }
    } else {
        process
    }
}

/// A process that has been killed: it ends without success, unless it had ended.
pub open spec fn after_kill(process: ProcessModel) -> ProcessModel {
    ProcessModel {
        exit: if process.exit is None {
            Some(ExitModel::Status(ProcessStatus { success: false }))
        } else {
            process.exit
        },
        open: false,
        killed: true,
        ..process
    }
}

impl VirtualProcess {
    pub fn new() -> (r: VirtualProcess)
        ensures
            r@ == started(),
    {
        let out = VirtualProcess { printed: Vec::new(), open: true, exit: None, killed: false };
        proof {
            assert(out@.printed =~= started().printed);
        }
        out
    }

    pub fn output(&mut self, bytes: Vec<u8>)
        ensures
            final(self)@ == after_output(old(self)@, bytes@),
    {
        if self.open {
            let ghost before = self@.printed;
            self.printed.push(bytes);
            proof {
                assert(self@.printed =~= before.push(bytes@));
            }
        }
    }

    fn finish(&mut self, exit: VirtualExit)
        ensures
            final(self)@ == after_exit(old(self)@, exit@),
    {
        if self.exit.is_none() {
            self.exit = Some(exit);
            self.open = false;
        }
    }

    pub fn succeed(&mut self)
        ensures
            final(self)@ == after_exit(
                old(self)@,
                ExitModel::Status(ProcessStatus { success: true }),
            ),
    {
        self.finish(VirtualExit::Status(ProcessStatus { success: true }));
    }

    pub fn fail(&mut self)
        ensures
            final(self)@ == after_exit(
                old(self)@,
                ExitModel::Status(ProcessStatus { success: false }),
            ),
    {
        self.finish(VirtualExit::Status(ProcessStatus { success: false }));
    }

    pub fn error(&mut self, message: &str)
        ensures
            final(self)@ == after_exit(old(self)@, ExitModel::Error(message@)),
    {
        self.finish(VirtualExit::Error(message.to_owned()));
    }

    pub fn kill(&mut self)
        ensures
            final(self)@ == after_kill(old(self)@),
    {
        self.killed = true;
        self.open = false;
        if self.exit.is_none() {
            self.exit = Some(VirtualExit::Status(ProcessStatus { success: false }));
        }
    }

    pub fn was_killed(&self) -> (r: bool)
        ensures
            r == self@.killed,
    {
        self.killed
    }

    /// How the process ended, if it has.
    pub fn wait(&self) -> (r: Option<VirtualExit>)
        ensures
            match r {
                Some(exit) => self@.exit == Some(exit@),
                None => self@.exit is None,
            },
    {
        match &self.exit {
            Some(exit) => Some(exit.clone()),
            None => None,
        }
    }

    /// How many pieces the process has printed.
    pub fn printed(&self) -> (r: usize)
        ensures
            r == self@.printed.len(),
    {
        self.printed.len()
    }

    /// One of the pieces that the process has printed.
    pub fn printed_at(&self, i: usize) -> (r: Vec<u8>)
        requires
            i < self@.printed.len(),
        ensures
            r@ == self@.printed[i as int],
    {
        let bytes = &self.printed[i];
        let copy = copy_range(bytes, 0, bytes.len());
        proof {
            assert(copy@ =~= bytes@);
        }
        copy
    }
}

/// A process that has ended stays as it is: later ends and later output change nothing.
pub proof fn ended_processes_stay(process: ProcessModel, bytes: Seq<u8>, exit: ExitModel)
    requires
        process.exit is Some,
        !process.open,
    ensures
        after_output(process, bytes) == process,
        after_exit(process, exit) == process,
        after_kill(process).exit == process.exit,
        after_kill(process).printed == process.printed,
{
}

/// A process ends at the latest when it is killed.
pub proof fn killed_processes_end(process: ProcessModel)
    ensures
        after_kill(process).exit is Some,
        !after_kill(process).open,
        process.exit is None ==> after_kill(process).exit == Some(
            ExitModel::Status(ProcessStatus { success: false }),
        ),
{
}

/// A group is signalled once at most, and never after its process has been waited for.
pub proof fn groups_are_signalled_once(group: ProcessGroup)
    ensures
        group.disarmed().target() is None,
        group.disarmed().disarmed() == group.disarmed(),
{
}

/// A process starts open, without output and without an end. What it prints while it is open is kept
/// behind what it printed before; its first end counts and closes it. The whole group of a process
/// is signalled, by the negative of its number, as long as the process may run.
pub proof fn processes_print_until_they_end(
    process: ProcessModel,
    bytes: Seq<u8>,
    exit: ExitModel,
    group: ProcessGroup,
)
    ensures
        started().open && started().printed.len() == 0 && started().exit is None
            && !started().killed,
        process.open ==> after_output(process, bytes).printed == process.printed + seq![bytes],
        !process.open ==> after_output(process, bytes).printed == process.printed,
        after_output(process, bytes).exit == process.exit && after_output(process, bytes).open
            == process.open,
        process.exit is None ==> after_exit(process, exit).exit == Some(exit) && !after_exit(
            process,
            exit,
        ).open,
        process.exit is Some ==> after_exit(process, exit).exit == process.exit,
        after_exit(process, exit).printed == process.printed && after_exit(process, exit).killed
            == process.killed,
        after_kill(process).killed && after_kill(process).printed == process.printed,
        group.armed && group.id is Some ==> group.target() == Some(-group.id->0),
        !group.armed || group.id is None ==> group.target() is None,
        !group.disarmed().armed && group.disarmed().id == group.id,
{
    assert(process.printed.push(bytes) =~= process.printed + seq![bytes]);
}

} // verus!
