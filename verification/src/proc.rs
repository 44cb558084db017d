//! Process bookkeeping: identifiers handed out from a bitmap, and the
//! records that hold a process's paging root and its threads.

use vstd::prelude::*;

verus! {

/// Process identifier.
pub type Pid = u64;

/// Thread identifier.
pub type Tid = u64;

/// Most processes the manager can track.
pub const MAX_PROCESSES: usize = 1024;

/// One process: its identifier, the physical address of its top-level
/// page table, and its threads.
#[derive(Debug)]
pub struct Process {
    pub pid: Pid,
    pub cr3: u64,
    pub threads: Vec<Tid>,
}

impl Process {
    /// A fresh process record with no paging root and no threads yet.
    pub fn new(pid: Pid) -> (r: Process)
        ensures
            r.pid == pid,
            r.cr3 == 0,
            r.threads@.len() == 0,
    {
        Process { pid, cr3: 0, threads: Vec::new() }
    }
}

/// One thread: its identifier, the process it belongs to, and the
/// address of its kernel stack.
#[derive(Debug, Clone, Copy, PartialEq, Eq, Structural)]
pub struct Thread {
    pub tid: Tid,
    pub parent_pid: Pid,
    pub kernel_stack: u64,
}

/// Whether bit `p` of the identifier bitmap is set, meaning the
/// identifier is taken.
pub open spec fn pid_taken(bm: Seq<u64>, p: int) -> bool {
    (bm[p / 64] >> ((p % 64) as u64)) & 1 == 1
}

proof fn lemma_u64_bit(b: u64, i: u64, j: u64)
    by (bit_vector)
    requires
        i < 64,
        j < 64,
    ensures
        ((b | (1u64 << i)) >> i) & 1 == 1,
        i != j ==> ((b | (1u64 << i)) >> j) & 1 == (b >> j) & 1,
        ((b & (1u64 << i)) == 0) == (((b >> i) & 1) != 1),
        b == 0xFFFF_FFFF_FFFF_FFFF ==> (b >> j) & 1 == 1,
{
}

/// The process table: the records of the live processes and a bitmap of
/// the identifiers in use, identifier 0 being reserved for the kernel.
pub struct Manager {
    pub processes: Vec<Process>,
    pub process_bitmap: Vec<u64>,
}

impl Manager {
    /// The identifier bitmap, one bit per possible identifier.
    pub closed spec fn bitmap(self) -> Seq<u64> {
        self.process_bitmap@
    }

    pub open spec fn wf(self) -> bool {
        self.bitmap().len() == MAX_PROCESSES / 64
    }

    /// A table with no processes; identifier 0 is already reserved for
    /// the kernel itself.
    pub fn new() -> (r: Manager)
        ensures
            r.wf(),
            r.processes@.len() == 0,
            pid_taken(r.bitmap(), 0),
            forall|p: int| 0 < p < MAX_PROCESSES ==> !pid_taken(r.bitmap(), p),
    {
        let mut process_bitmap: Vec<u64> = vec![0u64; 16];
        process_bitmap[0] = process_bitmap[0] | 1;
        let r = Manager { processes: Vec::new(), process_bitmap };
        proof {
            assert((0u64 | 1u64) == 1) by (bit_vector);
            assert((1u64 >> 0u64) & 1 == 1) by (bit_vector);
            assert(pid_taken(r.bitmap(), 0));
            assert forall|p: int| 0 < p < MAX_PROCESSES implies !pid_taken(r.bitmap(), p) by {
                vstd::arithmetic::div_mod::lemma_fundamental_div_mod(p, 64);
                let k: u64 = (p % 64) as u64;
                if p / 64 == 0 {
                    assert(k != 0);
                    assert(k < 64 && k != 0 ==> (1u64 >> k) & 1 != 1) by (bit_vector);
                } else {
                    assert(r.bitmap()[p / 64] == 0);
                    assert(k < 64 ==> (0u64 >> k) & 1 != 1) by (bit_vector);
                }
            }
        }
        r
    }

    /// Hand out the lowest free identifier, mark it taken, and push a
    /// fresh process record under it. At least one identifier must still
    /// be free; a full table would otherwise have to halt the kernel.
    pub fn create_process(&mut self) -> (pid: Pid)
        requires
            old(self).wf(),
            exists|p: int| 0 <= p < MAX_PROCESSES && !pid_taken(old(self).bitmap(), p),
        ensures
            final(self).wf(),
            0 <= pid < MAX_PROCESSES,
            !pid_taken(old(self).bitmap(), pid as int),
            pid_taken(final(self).bitmap(), pid as int),
            forall|p: int| 0 <= p < pid ==> pid_taken(old(self).bitmap(), p),
            forall|p: int|
                0 <= p < MAX_PROCESSES && p != pid ==> pid_taken(final(self).bitmap(), p)
                    == pid_taken(old(self).bitmap(), p),
            final(self).processes@.len() == old(self).processes@.len() + 1,
            final(self).processes@.subrange(0, old(self).processes@.len() as int) == old(
                self,
            ).processes@,
            final(self).processes@.last().pid == pid,
            final(self).processes@.last().cr3 == 0,
            final(self).processes@.last().threads@.len() == 0,
    {
        let ghost pre = *self;
        let mut i: usize = 0;
        while i < 16
            invariant
                *self == pre,
                pre == *old(self),
                pre.wf(),
                i <= 16,
                forall|p: int| 0 <= p < i * 64 ==> pid_taken(pre.bitmap(), p),
            decreases 16 - i,
        {
            let word = self.process_bitmap[i];
            if word != u64::MAX {
                let mut j: u64 = 0;
                while j < 64
                    invariant
                        *self == pre,
                        pre == *old(self),
                        pre.wf(),
                        i < 16,
                        j <= 64,
                        word == pre.bitmap()[i as int],
                        forall|p: int| 0 <= p < i * 64 ==> pid_taken(pre.bitmap(), p),
                        forall|p: int|
                            i * 64 <= p < i * 64 + j ==> pid_taken(pre.bitmap(), p),
                    decreases 64 - j,
                {
                    if word & (1u64 << j) == 0 {
                        let pid: u64 = (i as u64) * 64 + j;
                        proof {
                            lemma_u64_bit(word, j, j);
                            vstd::arithmetic::div_mod::lemma_fundamental_div_mod(pid as int, 64);
                            assert(pid as int / 64 == i as int && pid as int % 64 == j as int)
                                by (nonlinear_arith)
                                requires
                                    pid == i * 64 + j,
                                    0 <= j < 64,
                                    0 <= i,
                            ;
                            assert(!pid_taken(pre.bitmap(), pid as int));
                        }
                        self.process_bitmap[i] = word | (1u64 << j);
                        self.processes.push(Process::new(pid));
                        proof {
                            assert forall|p: int|
                                0 <= p < MAX_PROCESSES && p != pid implies pid_taken(
                                self.bitmap(),
                                p,
                            ) == pid_taken(pre.bitmap(), p) by {
                                vstd::arithmetic::div_mod::lemma_fundamental_div_mod(p, 64);
                                if p / 64 == i as int {
                                    lemma_u64_bit(word, j, (p % 64) as u64);
                                } else {
                                    assert(self.bitmap()[p / 64] == pre.bitmap()[p / 64]);
                                }
                            }
                            assert(pid_taken(self.bitmap(), pid as int)) by {
                                lemma_u64_bit(word, j, j);
                            }
                            assert(self.processes@.subrange(0, pre.processes@.len() as int)
                                =~= pre.processes@);
                        }
                        return pid;
                    }
                    proof {
                        lemma_u64_bit(word, j, j);
                        assert forall|p: int| i * 64 <= p < i * 64 + j + 1 implies pid_taken(
                            pre.bitmap(),
                            p,
                        ) by {
                            if p == i * 64 + j {
                                vstd::arithmetic::div_mod::lemma_fundamental_div_mod(p, 64);
                                assert(p / 64 == i as int && p % 64 == j as int)
                                    by (nonlinear_arith)
                                    requires
                                        p == i * 64 + j,
                                        0 <= j < 64,
                                        0 <= i,
                                ;
                            }
                        }
                    }
                    j = j + 1;
                }
            } else {
                proof {
                    assert forall|p: int| i * 64 <= p < i * 64 + 64 implies pid_taken(
                        pre.bitmap(),
                        p,
                    ) by {
                        vstd::arithmetic::div_mod::lemma_fundamental_div_mod(p, 64);
                        assert(p / 64 == i as int && 0 <= p % 64 < 64) by (nonlinear_arith)
                            requires
                                i * 64 <= p < i * 64 + 64,
                                0 <= i,
                        ;
                        lemma_u64_bit(word, 0, (p % 64) as u64);
                    }
                }
            }
            i = i + 1;
        }
        proof {
            assert forall|p: int| 0 <= p < MAX_PROCESSES implies pid_taken(pre.bitmap(), p) by {}
            assert(false);
        }
        // unreachable: some identifier was free by the precondition
        0
    }
}

/// Look a process up by its identifier: the first record carrying it, if
/// any.
pub fn get_process(manager: &Manager, pid: Pid) -> (r: Option<&Process>)
    ensures
        r is Some <==> exists|k: int|
            0 <= k < manager.processes@.len() && manager.processes@[k].pid == pid,
        r matches Some(p) ==> exists|k: int|
            0 <= k < manager.processes@.len() && manager.processes@[k].pid == pid && *p
                == manager.processes@[k],
{
    let n: usize = manager.processes.len();
    let mut k: usize = 0;
    while k < n
        invariant
            n == manager.processes@.len(),
            k <= n,
            forall|t: int| 0 <= t < k ==> manager.processes@[t].pid != pid,
        decreases n - k,
    {
        if manager.processes[k].pid == pid {
            return Some(&manager.processes[k]);
        }
        k = k + 1;
    }
    None
}

} // verus!
