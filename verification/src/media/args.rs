//! Arguments for FFmpeg's programs.
use crate::number::Real64;
use crate::text::owned;
use vstd::prelude::*;

verus! {

/// One argument. Numbers are written in the shortest way that reads back the same.
#[derive(Clone, Debug, PartialEq, Eq)]
pub enum Arg {
    Text(String),
    Number(Real64),
    /// A number between two texts.
    Around(String, Real64, String),
}

/// What an argument says.
pub enum Said {
    Text(Seq<char>),
    Number(Real64),
    Around(Seq<char>, Real64, Seq<char>),
}

impl View for Arg {
    type V = Said;

    open spec fn view(&self) -> Said {
        match *self {
            Arg::Text(text) => Said::Text(text@),
            Arg::Number(n) => Said::Number(n),
            Arg::Around(before, n, after) => Said::Around(before@, n, after@),
        }
    }
}

/// A program's arguments, in order.
#[derive(Clone, Debug, PartialEq, Eq)]
pub struct Args {
    pub list: Vec<Arg>,
}

impl View for Args {
    type V = Seq<Said>;

    open spec fn view(&self) -> Seq<Said> {
        Seq::new(self.list@.len(), |i: int| self.list@[i]@)
    }
}

/// Arguments that are texts.
pub open spec fn texts(s: Seq<Seq<char>>) -> Seq<Said> {
    Seq::new(s.len(), |i: int| Said::Text(s[i]))
}

/// What every call of FFmpeg starts with: only errors are logged, and it never reads keys.
pub open spec fn ffmpeg_start() -> Seq<Said> {
    texts(seq!["-v"@, "error"@, "-nostdin"@])
}

/// What every call of ffprobe starts with.
pub open spec fn ffprobe_start() -> Seq<Said> {
    texts(seq!["-v"@, "error"@])
}

impl Args {
    pub fn new() -> (r: Args)
        ensures
            r@ == Seq::<Said>::empty(),
    {
        Args { list: Vec::new() }
    }

    pub fn ffmpeg() -> (r: Args)
        ensures
            r@ == ffmpeg_start(),
    {
        let mut r: Args = Args::new();
        r.add(["-v", "error", "-nostdin"]);
        r
    }

    pub fn ffprobe() -> (r: Args)
        ensures
            r@ == ffprobe_start(),
    {
        let mut r: Args = Args::new();
        r.add(["-v", "error"]);
        r
    }

    pub fn push(&mut self, arg: Arg)
        ensures
            final(self)@ == old(self)@.push(arg@),
    {
        self.list.push(arg);
    }

    pub fn text(&mut self, text: &str)
        ensures
            final(self)@ == old(self)@.push(Said::Text(text@)),
    {
        self.push(Arg::Text(owned(text)));
    }

    pub fn number(&mut self, number: Real64)
        ensures
            final(self)@ == old(self)@.push(Said::Number(number)),
    {
        self.push(Arg::Number(number));
    }

    /// Adds texts in order.
    pub fn add<const N: usize>(&mut self, items: [&str; N])
        ensures
            final(self)@ == old(self)@ + Seq::new(N as nat, |i: int| Said::Text(items@[i]@)),
    {
        let mut i: usize = 0;
        while i < N
            invariant
                i <= N,
                self@ == old(self)@ + Seq::new(i as nat, |k: int| Said::Text(items@[k]@)),
            decreases N - i,
        {
            self.text(items[i]);
            i = i + 1;
        }
    }
}

/// Whether an option is given a value: the value follows it.
pub open spec fn told(args: Seq<Said>, option: Seq<char>, value: Said) -> bool {
    exists|i: int|
        0 <= i && i + 1 < args.len() && #[trigger] args[i] == Said::Text(option) && args[i + 1]
            == value
}

/// Whether an option is given a value the first time it is given one.
pub open spec fn first_told(args: Seq<Said>, option: Seq<char>, value: Said) -> bool {
    exists|i: int|
        {
            &&& 0 <= i
            &&& i + 1 < args.len()
            &&& #[trigger] args[i] == Said::Text(option)
            &&& args[i + 1] == value
            &&& forall|j: int| 0 <= j < i ==> #[trigger] args[j] != Said::Text(option)
        }
}

/// Whether what a program reads from its standard input is described so: what stands before the
/// first input, which is the pipe, gives these options these values, each for the first time.
pub open spec fn reads_frames(
    args: Seq<Said>,
    pixels: Seq<char>,
    size: Seq<char>,
    rate: Seq<char>,
) -> bool {
    exists|p: int|
        {
            &&& 0 <= p
            &&& p + 1 < args.len()
            &&& #[trigger] args[p] == Said::Text("-i"@)
            &&& args[p + 1] == Said::Text("pipe:0"@)
            &&& first_told(args.take(p), "-f"@, Said::Text("rawvideo"@))
            &&& first_told(args.take(p), "-pix_fmt"@, Said::Text(pixels))
            &&& first_told(args.take(p), "-s"@, Said::Text(size))
            &&& told(args.take(p), "-r"@, Said::Text(rate))
        }
}

/// Whether frames are written to the standard output in this form.
pub open spec fn writes_frames(args: Seq<Said>, pixels: Seq<char>) -> bool {
    &&& args.len() > 0
    &&& args.last() == Said::Text("pipe:1"@)
    &&& told(args, "-f"@, Said::Text("rawvideo"@))
    &&& told(args, "-pix_fmt"@, Said::Text(pixels))
}

/// Options that begin so describe the frames on the standard input.
pub proof fn lemma_reads_frames(args: Seq<Said>, size: Seq<char>, rate: Seq<char>)
    requires
        args.len() >= 14,
        args.take(14) == ffmpeg_start() + texts(
            seq![
                "-y"@,
                "-f"@,
                "rawvideo"@,
                "-pix_fmt"@,
                "rgba"@,
                "-s"@,
                size,
                "-r"@,
                rate,
                "-i"@,
                "pipe:0"@,
            ],
        ),
    ensures
        reads_frames(args, "rgba"@, size, rate),
{
    reveal_strlit("-v");
    reveal_strlit("error");
    reveal_strlit("-nostdin");
    reveal_strlit("-y");
    reveal_strlit("-f");
    reveal_strlit("rawvideo");
    reveal_strlit("-pix_fmt");
    reveal_strlit("rgba");
    reveal_strlit("-s");
    let head = args.take(14);
    assert forall|k: int| 0 <= k < 14 implies args[k] == head[k] by {}
    let before = args.take(12);
    assert forall|k: int| 0 <= k < 12 implies before[k] == head[k] by {}
    assert(head[0] == Said::Text("-v"@) && head[1] == Said::Text("error"@) && head[2] == Said::Text(
        "-nostdin"@,
    ));
    assert(before[4] == Said::Text("-f"@) && before[5] == Said::Text("rawvideo"@));
    assert(before[6] == Said::Text("-pix_fmt"@) && before[7] == Said::Text("rgba"@));
    assert(before[8] == Said::Text("-s"@) && before[9] == Said::Text(size));
    assert(before[10] == Said::Text("-r"@) && before[11] == Said::Text(rate));
    assert("-v"@[1] == 'v' && "-y"@[1] == 'y' && "-f"@[1] == 'f' && "-s"@[1] == 's');
    assert("-nostdin"@[1] == 'n' && "-pix_fmt"@[1] == 'p' && "rawvideo"@[1] == 'a');
    assert(first_told(before, "-f"@, Said::Text("rawvideo"@)));
    assert(first_told(before, "-pix_fmt"@, Said::Text("rgba"@)));
    assert(first_told(before, "-s"@, Said::Text(size)));
    assert(told(before, "-r"@, Said::Text(rate)));
    assert(args[12] == Said::Text("-i"@));
}

/// The inputs of a command in the order in which they are numbered: what follows each `-i`.
pub open spec fn inputs(args: Seq<Said>) -> Seq<Said>
    decreases args.len(),
{
    if args.len() < 2 {
        Seq::empty()
    } else if args[0] == Said::Text("-i"@) {
        seq![args[1]] + inputs(args.skip(2))
    } else {
        inputs(args.skip(1))
    }
}

/// Options before an input do not count as one.
pub proof fn lemma_no_input(head: Seq<Said>, rest: Seq<Said>)
    requires
        forall|k: int| 0 <= k < head.len() ==> #[trigger] head[k] != Said::Text("-i"@),
        rest.len() > 0,
    ensures
        inputs(head + rest) == inputs(rest),
    decreases head.len(),
{
    if head.len() == 0 {
        assert(head + rest =~= rest);
    } else {
        let all = head + rest;
        assert(all[0] == head[0]);
        assert(all.skip(1) =~= head.skip(1) + rest);
        lemma_no_input(head.skip(1), rest);
    }
}

/// An input counts once.
pub proof fn lemma_input(value: Said, rest: Seq<Said>)
    ensures
        inputs(seq![Said::Text("-i"@), value] + rest) == seq![value] + inputs(rest),
{
    let all = seq![Said::Text("-i"@), value] + rest;
    assert(all.skip(2) =~= rest);
}

} // verus!
