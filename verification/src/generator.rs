//! Handing out openings to workers in jobs.

use std::sync::{Arc, Mutex};
use vstd::prelude::*;
use crate::board::{Board, Status};

verus! {

/// The settings of a run.
pub struct Config {
    /// The number of games wanted.
    pub num_games: u64,
    /// The path of the opening book.
    pub starting_book: String,
    /// The path to write the games to.
    pub output_path: String,
    /// The number of openings in a job.
    pub job_size: u64,
    /// The number of workers.
    pub num_workers: u64,
}

/// A game by its positions, from the opening to the last position reached.
pub struct Game {
    pub end_status: Status,
    pub positions: Vec<Board>,
}

/// The openings that one worker plays.
pub struct Job {
    pub starting_boards: Vec<Board>,
}

/// The opening book, and the number of openings handed out.
#[derive(Clone)]
pub struct Book {
    pub book: Vec<Board>,
    pub index: u64,
}

/// The openings of the job that a book at `index` hands out for a job size
/// of `job_size`: those at `index`, `index + 1` and so on below `job_size`,
/// the book starting over at its end.
pub open spec fn job_boards(book: Seq<Board>, index: u64, job_size: u64) -> Seq<Board> {
    Seq::new(
        if index < job_size {
            (job_size - index) as nat
        } else {
            0nat
        },
        |k: int| book[(index + k) % book.len() as int],
    )
}

impl Book {
    /// Hands out the next job and moves the index on by `job_size`.
    pub fn generate_job(&mut self, job_size: u64) -> (job: Job)
        requires
            old(self).index + job_size <= u64::MAX,
            job_size <= usize::MAX,
            old(self).index < job_size ==> old(self).book@.len() > 0,
        ensures
            job.starting_boards@ == job_boards(old(self).book@, old(self).index, job_size),
            final(self).book == old(self).book,
            final(self).index == old(self).index + job_size,
    {
        let mut starting_boards: Vec<Board> = Vec::new();
        let mut idx: u64 = self.index;
        while idx < job_size
            invariant
                self.index <= idx,
                self.index < job_size ==> idx <= job_size,
                self.index >= job_size ==> idx == self.index,
                job_size <= usize::MAX,
                idx < job_size ==> self.book@.len() > 0,
                starting_boards@ == job_boards(self.book@, self.index, idx),
            decreases job_size - idx,
        {
            let n = self.book.len();
            starting_boards.push(self.book[(idx as usize) % n]);
            idx += 1;
            assert(starting_boards@ =~= job_boards(self.book@, self.index, idx));
        }
        assert(starting_boards@ =~= job_boards(self.book@, self.index, job_size));
        self.index += job_size;
        Job { starting_boards }
    }
}

/// A run: its settings, its book, and the games that its workers have
/// finished.
pub struct Generator {
    pub config: Config,
    pub book: Book,
    pub output: Arc<Mutex<Vec<Game>>>,
}

impl Config {
    /// The number of jobs of the run: one for every `job_size` games
    /// wanted, and one more.
    pub fn job_count(&self) -> (jobs: u64)
        requires
            self.job_size > 0,
            self.num_games < u64::MAX,
        ensures
            jobs == self.num_games / self.job_size + 1,
    {
        self.num_games / self.job_size + 1
    }
}

} // verus!
