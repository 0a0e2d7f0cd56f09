//! The queue of the tasks that are ready to run.

use vstd::prelude::*;
use crate::config::MIN_PRIORITY;
use crate::task::context::{TaskContext, TaskStatus};
use crate::task::control_block::{TaskControlBlock, TaskView};
use crate::task::stride::{
    dispatch, lane_strides, lemma_lane_stride_advances, lemma_pick_in_range, pick,
    priorities_from, stride_lt, Lane,
};

verus! {

/// The strides of the tasks of a queue, in the order of the queue.
pub open spec fn queue_strides(tasks: Seq<TaskView>) -> Seq<u64> {
    Seq::new(tasks.len(), |i: int| tasks[i].stride)
}

/// The position in the queue of the task that runs next.
pub open spec fn next_task(tasks: Seq<TaskView>) -> int {
    pick(queue_strides(tasks))
}

/// The queue after the task that runs next was dispatched and, having given up the CPU
/// with the registers `regs`, has joined the queue again.
pub open spec fn cycled(tasks: Seq<TaskView>, regs: TaskContext) -> Seq<TaskView> {
    let chosen = next_task(tasks);
    tasks.remove(chosen).push(
        TaskView { status: TaskStatus::Ready, task_cx: regs, ..tasks[chosen].dispatched() },
    )
}

/// Whether the tasks of a queue have, one by one, the priorities and the strides of
/// `lanes`.
pub open spec fn follows(tasks: Seq<TaskView>, lanes: Seq<Lane>) -> bool {
    &&& tasks.len() == lanes.len()
    &&& forall|i: int|
        0 <= i < tasks.len() ==> (#[trigger] tasks[i]).priority == lanes[i].priority
            && tasks[i].stride == lanes[i].stride()
}

/// The ready queue moves as the model of fair share does: a queue that has the
/// priorities and strides of `lanes` has, after a task was dispatched and has joined the
/// queue again, those of `lanes` after one dispatch.
pub proof fn lemma_queue_follows_lanes(tasks: Seq<TaskView>, lanes: Seq<Lane>, regs: TaskContext)
    requires
        tasks.len() > 0,
        follows(tasks, lanes),
        priorities_from(lanes, MIN_PRIORITY),
    ensures
        follows(cycled(tasks, regs), dispatch(lanes)),
{
    assert(queue_strides(tasks) =~= lane_strides(lanes));
    lemma_pick_in_range(queue_strides(tasks));
    let chosen = next_task(tasks);
    lemma_lane_stride_advances(lanes[chosen]);
    let after = cycled(tasks, regs);
    let model = dispatch(lanes);
    assert forall|i: int| 0 <= i < after.len() implies (#[trigger] after[i]).priority
        == model[i].priority && after[i].stride == model[i].stride() by {
        if i < chosen {
            assert(after[i] == tasks[i]);
        } else if i < after.len() - 1 {
            assert(after[i] == tasks[i + 1]);
        }
    }
}

/// The tasks that are ready to run, in the order in which they became ready.
pub struct TaskManager {
    ready_queue: Vec<TaskControlBlock>,
}

impl View for TaskManager {
    type V = Seq<TaskView>;

    closed spec fn view(&self) -> Seq<TaskView> {
        Seq::new(self.ready_queue@.len(), |i: int| self.ready_queue@[i]@)
    }
}

impl TaskManager {
    /// Every task of the queue is well formed.
    pub open spec fn wf(&self) -> bool {
        forall|i: int| 0 <= i < self@.len() ==> (#[trigger] self@[i]).wf()
    }

    /// A queue without tasks.
    pub fn new() -> (manager: TaskManager)
        ensures
            manager.wf(),
            manager@.len() == 0,
    {
        TaskManager { ready_queue: Vec::new() }
    }

    /// The number of tasks that are ready.
    pub fn len(&self) -> (len: usize)
        ensures
            len == self@.len(),
    {
        self.ready_queue.len()
    }

    /// Puts a task at the end of the queue.
    pub fn add(&mut self, task: TaskControlBlock)
        ensures
            final(self)@ == old(self)@.push(task@),
    {
        self.ready_queue.push(task);
        assert(self@ =~= old(self)@.push(task@));
    }

    /// Takes the task that runs next out of the queue: the one with the smallest stride,
    /// and of several such the one that became ready first. `None` where no task is
    /// ready.
    pub fn fetch(&mut self) -> (task: Option<TaskControlBlock>)
        ensures
            match task {
                None => old(self)@.len() == 0 && final(self)@ == old(self)@,
                Some(task) => {
                    &&& old(self)@.len() > 0
                    &&& task@ == old(self)@[next_task(old(self)@)]
                    &&& final(self)@ == old(self)@.remove(next_task(old(self)@))
                },
            },
    {
        if self.ready_queue.len() == 0 {
            return None;
        }
        let ghost strides = queue_strides(self@);
        let mut best: usize = 0;
        let mut i: usize = 1;
        assert(strides.take(1).len() == 1);
        while i < self.ready_queue.len()
            invariant
                1 <= i <= self.ready_queue@.len(),
                *self == *old(self),
                strides == queue_strides(self@),
                0 <= best < i,
                best == pick(strides.take(i as int)),
            decreases self.ready_queue@.len() - i,
        {
            proof {
                assert(strides.take(i + 1).drop_last() =~= strides.take(i as int));
                assert(strides.take(i + 1).last() == strides[i as int]);
                assert(strides.take(i + 1)[best as int] == strides[best as int]);
            }
            if stride_lt(self.ready_queue[i].stride(), self.ready_queue[best].stride()) {
                best = i;
            }
            i = i + 1;
        }
        proof {
            assert(strides.take(i as int) =~= strides);
            lemma_pick_in_range(strides);
        }
        let task = self.ready_queue.remove(best);
        assert(self@ =~= old(self)@.remove(best as int));
        Some(task)
    }
}

} // verus!
