//! Running one GMX sub-command of an external simulation package.
//!
//! The operator is stateless: it resolves a working directory by
//! simulation id and invokes the external executable with a sub-command,
//! ordered arguments and ordered interactive prompt answers, capturing
//! the outputs and a success flag.  The invocation itself is outside
//! work; this module holds the input and output values, their canonical
//! encoding, and how a captured outcome becomes a result.

use vstd::prelude::*;
use crate::serial::{
    dec_bool, dec_str, dec_str_list, decode_bool, decode_str, decode_str_list, enc_bool, enc_str,
    enc_str_list, encode_bool, encode_str, encode_str_list, lemma_dec_enc_bool, lemma_dec_enc_str,
    lemma_dec_enc_str_list,
};
use crate::kinds::cu::{dec_cu, decode_cu, enc_cu, encode_cu, lemma_dec_enc_cu};
use crate::traits::Serialization;

verus! {

/// Input of one GMX run: which simulation, which sub-command, and the
/// files around it.
#[derive(Debug, Clone, PartialEq)]
pub struct Input {
    pub simulation_id: String,
    pub sub_command: String,
    pub arguments: Vec<String>,
    pub prompts: Vec<String>,
    pub files_dir: String,
    pub files_input: Vec<String>,
    pub files_output: Vec<String>,
}

/// What one GMX run produced.
#[derive(Debug, Clone, PartialEq)]
pub struct Output {
    pub success: bool,
    pub stdout: String,
    pub stderr: String,
}

impl Output {
    /// A captured invocation outcome as a result: on success the output
    /// with its error stream discarded, else the error text, surfaced
    /// verbatim.
    pub fn from_run(success: bool, stdout: String, stderr: String) -> (r: Result<Output, String>)
        ensures
            success ==> r is Ok && r.unwrap().success && r.unwrap().stdout == stdout
                && r.unwrap().stderr@.len() == 0,
            !success ==> r == Err::<Output, String>(stderr),
    {
        if success {
            Ok(Output { success: true, stdout, stderr: String::new() })
        } else {
            Err(stderr)
        }
    }
}

/// The observable content of a GMX input.
pub type InputRepr = (
    Seq<char>,
    Seq<char>,
    Seq<Seq<char>>,
    Seq<Seq<char>>,
    Seq<char>,
    Seq<Seq<char>>,
    Seq<Seq<char>>,
);

pub open spec fn input_repr(x: Input) -> InputRepr {
    (
        x.simulation_id@,
        x.sub_command@,
        x.arguments.deep_view(),
        x.prompts.deep_view(),
        x.files_dir@,
        x.files_input.deep_view(),
        x.files_output.deep_view(),
    )
}

/// The canonical encoding of a GMX input: its seven fields in order.
pub open spec fn enc_gmx_input(x: InputRepr) -> Seq<char> {
    enc_str(x.0) + enc_str(x.1) + enc_str_list(x.2) + enc_str_list(x.3) + enc_str(x.4)
        + enc_str_list(x.5) + enc_str_list(x.6)
}

pub open spec fn dec_gmx_input(s: Seq<char>) -> Option<(InputRepr, Seq<char>)> {
    match dec_str(s) {
        Some((sim, r1)) => match dec_str(r1) {
            Some((sub, r2)) => match dec_str_list(r2) {
                Some((args, r3)) => match dec_str_list(r3) {
                    Some((prompts, r4)) => match dec_str(r4) {
                        Some((dir, r5)) => match dec_str_list(r5) {
                            Some((fin, r6)) => match dec_str_list(r6) {
                                Some((fout, r7)) => Some(
                                    ((sim, sub, args, prompts, dir, fin, fout), r7),
                                ),
                                None => None,
                            },
                            None => None,
                        },
                        None => None,
                    },
                    None => None,
                },
                None => None,
            },
            None => None,
        },
        None => None,
    }
}

pub proof fn lemma_dec_enc_gmx_input(x: InputRepr, t: Seq<char>)
    ensures
        dec_gmx_input(enc_gmx_input(x) + t) == Some((x, t)),
{
    let t6 = enc_str_list(x.6) + t;
    let t5 = enc_str_list(x.5) + t6;
    let t4 = enc_str(x.4) + t5;
    let t3 = enc_str_list(x.3) + t4;
    let t2 = enc_str_list(x.2) + t3;
    let t1 = enc_str(x.1) + t2;
    assert(enc_gmx_input(x) + t =~= enc_str(x.0) + t1);
    lemma_dec_enc_str(x.0, t1);
    assert(t1 =~= enc_str(x.1) + t2);
    lemma_dec_enc_str(x.1, t2);
    assert(t2 =~= enc_str_list(x.2) + t3);
    lemma_dec_enc_str_list(x.2, t3);
    assert(t3 =~= enc_str_list(x.3) + t4);
    lemma_dec_enc_str_list(x.3, t4);
    assert(t4 =~= enc_str(x.4) + t5);
    lemma_dec_enc_str(x.4, t5);
    assert(t5 =~= enc_str_list(x.5) + t6);
    lemma_dec_enc_str_list(x.5, t6);
    lemma_dec_enc_str_list(x.6, t);
}

pub fn encode_gmx_input(out: &mut String, x: &Input)
    ensures
        final(out)@ == old(out)@ + enc_gmx_input(input_repr(*x)),
{
    encode_str(out, x.simulation_id.as_str());
    encode_str(out, x.sub_command.as_str());
    encode_str_list(out, &x.arguments);
    encode_str_list(out, &x.prompts);
    encode_str(out, x.files_dir.as_str());
    encode_str_list(out, &x.files_input);
    encode_str_list(out, &x.files_output);
    proof {
        assert(out@ =~= old(out)@ + enc_gmx_input(input_repr(*x)));
    }
}

pub fn decode_gmx_input(s: &str, pos: usize) -> (r: Option<(Input, usize)>)
    requires
        pos <= s@.len(),
    ensures
        match r {
            Some(vp) => pos <= vp.1 <= s@.len() && dec_gmx_input(
                s@.subrange(pos as int, s@.len() as int),
            ) == Some((input_repr(vp.0), s@.subrange(vp.1 as int, s@.len() as int))),
            None => dec_gmx_input(s@.subrange(pos as int, s@.len() as int)) is None,
        },
{
    match decode_str(s, pos) {
        Some((sim, p1)) => match decode_str(s, p1) {
            Some((sub, p2)) => match decode_str_list(s, p2) {
                Some((args, p3)) => match decode_str_list(s, p3) {
                    Some((prompts, p4)) => match decode_str(s, p4) {
                        Some((dir, p5)) => match decode_str_list(s, p5) {
                            Some((fin, p6)) => match decode_str_list(s, p6) {
                                Some((fout, p7)) => Some(
                                    (
                                        Input {
                                            simulation_id: sim,
                                            sub_command: sub,
                                            arguments: args,
                                            prompts,
                                            files_dir: dir,
                                            files_input: fin,
                                            files_output: fout,
                                        },
                                        p7,
                                    ),
                                ),
                                None => None,
                            },
                            None => None,
                        },
                        None => None,
                    },
                    None => None,
                },
                None => None,
            },
            None => None,
        },
        None => None,
    }
}

impl Serialization for Input {
    type Repr = InputRepr;

    open spec fn repr(&self) -> InputRepr {
        input_repr(*self)
    }

    open spec fn serial(&self) -> Seq<char> {
        enc_gmx_input(input_repr(*self))
    }

    open spec fn deserial(s: Seq<char>) -> Option<InputRepr> {
        match dec_gmx_input(s) {
            Some((v, r)) => if r.len() == 0 {
                Some(v)
            } else {
                None
            },
            None => None,
        }
    }

    fn ser_to(&self) -> (r: crate::traits::SerializedFormat) {
        let mut out = String::new();
        encode_gmx_input(&mut out, self);
        proof {
            assert(out@ =~= self.serial());
        }
        out
    }

    fn ser_from(content: &crate::traits::SerializedFormat) -> (r: Self) {
        let len = content.as_str().unicode_len();
        proof {
            assert(content@.subrange(0, content@.len() as int) =~= content@);
        }
        match decode_gmx_input(content.as_str(), 0) {
            Some((v, p)) => {
                if p == len {
                    proof {
                        assert(content@.subrange(p as int, content@.len() as int).len() == 0);
                    }
                    v
                } else {
                    proof {
                        assert(content@.subrange(p as int, content@.len() as int).len() != 0);
                        assert(false);
                    }
                    unreached()
                }
            },
            None => {
                proof {
                    assert(false);
                }
                unreached()
            },
        }
    }

    proof fn lemma_round_trip(&self) {
        lemma_dec_enc_gmx_input(input_repr(*self), Seq::empty());
        assert(self.serial() + Seq::empty() =~= self.serial());
    }
}

impl crate::traits::TraitInput for Input {
    open spec fn is_default(&self) -> bool {
        &&& self.simulation_id@ == "lysozyme"@
        &&& self.sub_command@ == "pdb2gmx"@
        &&& self.arguments.deep_view() =~= seq![
            "-f"@,
            "1AKI_clean.pdb"@,
            "-o"@,
            "1AKI_processed.gro"@,
            "-water"@,
            "spce"@,
        ]
        &&& self.prompts.deep_view() =~= seq!["15 0"@]
        &&& self.files_dir@ == "."@
        &&& self.files_input.deep_view() =~= seq!["1AKI_clean.pdb"@]
        &&& self.files_output.deep_view() =~= seq![
            "1AKI_processed.gro"@,
            "topol.top"@,
            "posre.itp"@,
        ]
    }

    fn default() -> (r: Self) {
        let mut arguments: Vec<String> = Vec::new();
        arguments.push(String::from_str("-f"));
        arguments.push(String::from_str("1AKI_clean.pdb"));
        arguments.push(String::from_str("-o"));
        arguments.push(String::from_str("1AKI_processed.gro"));
        arguments.push(String::from_str("-water"));
        arguments.push(String::from_str("spce"));
        let mut prompts: Vec<String> = Vec::new();
        prompts.push(String::from_str("15 0"));
        let mut files_input: Vec<String> = Vec::new();
        files_input.push(String::from_str("1AKI_clean.pdb"));
        let mut files_output: Vec<String> = Vec::new();
        files_output.push(String::from_str("1AKI_processed.gro"));
        files_output.push(String::from_str("topol.top"));
        files_output.push(String::from_str("posre.itp"));
        Input {
            simulation_id: String::from_str("lysozyme"),
            sub_command: String::from_str("pdb2gmx"),
            arguments,
            prompts,
            files_dir: String::from_str("."),
            files_input,
            files_output,
        }
    }
}

impl crate::traits::TraitFileRequirements for Input {
    fn dir(&self) -> String {
        self.simulation_id.clone()
    }

    fn dir_full(&self) -> String {
        let mut out = String::new();
        out.append(self.files_dir.as_str());
        out.append("/");
        out.append(self.simulation_id.as_str());
        out
    }

    fn files_in(&self) -> Vec<String> {
        self.files_input.clone()
    }

    fn files_out(&self) -> Vec<String> {
        self.files_output.clone()
    }
}

/// The observable content of a GMX output.
pub type OutputRepr = (bool, Seq<char>, Seq<char>);

pub open spec fn output_repr(x: Output) -> OutputRepr {
    (x.success, x.stdout@, x.stderr@)
}

/// The canonical encoding of a GMX output: the flag and both captured
/// texts.
pub open spec fn enc_gmx_output(x: OutputRepr) -> Seq<char> {
    enc_bool(x.0) + enc_str(x.1) + enc_str(x.2)
}

pub open spec fn dec_gmx_output(s: Seq<char>) -> Option<(OutputRepr, Seq<char>)> {
    match dec_bool(s) {
        Some((b, r1)) => match dec_str(r1) {
            Some((so, r2)) => match dec_str(r2) {
                Some((se, r3)) => Some(((b, so, se), r3)),
                None => None,
            },
            None => None,
        },
        None => None,
    }
}

pub proof fn lemma_dec_enc_gmx_output(x: OutputRepr, t: Seq<char>)
    ensures
        dec_gmx_output(enc_gmx_output(x) + t) == Some((x, t)),
{
    let t2 = enc_str(x.2) + t;
    let t1 = enc_str(x.1) + t2;
    assert(enc_gmx_output(x) + t =~= enc_bool(x.0) + t1);
    lemma_dec_enc_bool(x.0, t1);
    assert(t1 =~= enc_str(x.1) + t2);
    lemma_dec_enc_str(x.1, t2);
    lemma_dec_enc_str(x.2, t);
}

pub fn encode_gmx_output(out: &mut String, x: &Output)
    ensures
        final(out)@ == old(out)@ + enc_gmx_output(output_repr(*x)),
{
    encode_bool(out, x.success);
    encode_str(out, x.stdout.as_str());
    encode_str(out, x.stderr.as_str());
    proof {
        assert(out@ =~= old(out)@ + enc_gmx_output(output_repr(*x)));
    }
}

pub fn decode_gmx_output(s: &str, pos: usize) -> (r: Option<(Output, usize)>)
    requires
        pos <= s@.len(),
    ensures
        match r {
            Some(vp) => pos <= vp.1 <= s@.len() && dec_gmx_output(
                s@.subrange(pos as int, s@.len() as int),
            ) == Some((output_repr(vp.0), s@.subrange(vp.1 as int, s@.len() as int))),
            None => dec_gmx_output(s@.subrange(pos as int, s@.len() as int)) is None,
        },
{
    match decode_bool(s, pos) {
        Some((b, p1)) => match decode_str(s, p1) {
            Some((so, p2)) => match decode_str(s, p2) {
                Some((se, p3)) => Some((Output { success: b, stdout: so, stderr: se }, p3)),
                None => None,
            },
            None => None,
        },
        None => None,
    }
}

impl Serialization for Output {
    type Repr = OutputRepr;

    open spec fn repr(&self) -> OutputRepr {
        output_repr(*self)
    }

    open spec fn serial(&self) -> Seq<char> {
        enc_gmx_output(output_repr(*self))
    }

    open spec fn deserial(s: Seq<char>) -> Option<OutputRepr> {
        match dec_gmx_output(s) {
            Some((v, r)) => if r.len() == 0 {
                Some(v)
            } else {
                None
            },
            None => None,
        }
    }

    fn ser_to(&self) -> (r: crate::traits::SerializedFormat) {
        let mut out = String::new();
        encode_gmx_output(&mut out, self);
        proof {
            assert(out@ =~= self.serial());
        }
        out
    }

    fn ser_from(content: &crate::traits::SerializedFormat) -> (r: Self) {
        let len = content.as_str().unicode_len();
        proof {
            assert(content@.subrange(0, content@.len() as int) =~= content@);
        }
        match decode_gmx_output(content.as_str(), 0) {
            Some((v, p)) => {
                if p == len {
                    proof {
                        assert(content@.subrange(p as int, content@.len() as int).len() == 0);
                    }
                    v
                } else {
                    proof {
                        assert(content@.subrange(p as int, content@.len() as int).len() != 0);
                        assert(false);
                    }
                    unreached()
                }
            },
            None => {
                proof {
                    assert(false);
                }
                unreached()
            },
        }
    }

    proof fn lemma_round_trip(&self) {
        lemma_dec_enc_gmx_output(output_repr(*self), Seq::empty());
        assert(self.serial() + Seq::empty() =~= self.serial());
    }
}

impl crate::traits::TraitOutput for Output {
    open spec fn is_blank(&self) -> bool {
        !self.success && self.stdout@.len() == 0 && self.stderr@.len() == 0
    }

    fn blank() -> (r: Self) {
        Output { success: false, stdout: String::new(), stderr: String::new() }
    }

    fn clear(&mut self) {
        self.success = false;
        self.stdout = String::new();
        self.stderr = String::new();
    }

    fn append(&mut self, other: &mut Self) {
        self.success = other.success;
        self.stdout.append(other.stdout.as_str());
        self.stderr.append(other.stderr.as_str());
    }

    fn len(&self) -> usize {
        0
    }
}

/// The observable content of a GMX report.
pub type GmxReportRepr = (Seq<char>, crate::kinds::ComputingUnit, InputRepr, OutputRepr);

/// The persisted summary of a GMX run.
#[derive(Debug, Clone, PartialEq)]
pub struct Report {
    pub job_id: crate::job::ID,
    pub cuk: crate::kinds::ComputingUnit,
    pub input: Input,
    pub output: Output,
}

/// The canonical encoding of a GMX report: job identifier, computing-unit
/// kind, input and output, in that order.
pub open spec fn enc_gmx_report(x: GmxReportRepr) -> Seq<char> {
    enc_str(x.0) + enc_cu(x.1) + enc_gmx_input(x.2) + enc_gmx_output(x.3)
}

pub open spec fn dec_gmx_report(s: Seq<char>) -> Option<(GmxReportRepr, Seq<char>)> {
    match dec_str(s) {
        Some((jid, r)) => match dec_cu(r) {
            Some((cuk, r2)) => match dec_gmx_input(r2) {
                Some((inp, r3)) => match dec_gmx_output(r3) {
                    Some((outp, r4)) => Some(((jid, cuk, inp, outp), r4)),
                    None => None,
                },
                None => None,
            },
            None => None,
        },
        None => None,
    }
}

pub proof fn lemma_dec_enc_gmx_report(x: GmxReportRepr, t: Seq<char>)
    ensures
        dec_gmx_report(enc_gmx_report(x) + t) == Some((x, t)),
{
    let t3 = enc_gmx_output(x.3) + t;
    let t2 = enc_gmx_input(x.2) + t3;
    let t1 = enc_cu(x.1) + t2;
    assert(enc_gmx_report(x) + t =~= enc_str(x.0) + t1);
    lemma_dec_enc_str(x.0, t1);
    assert(t1 =~= enc_cu(x.1) + t2);
    lemma_dec_enc_cu(x.1, t2);
    lemma_dec_enc_gmx_input(x.2, t3);
    lemma_dec_enc_gmx_output(x.3, t);
}

impl Report {
    pub open spec fn spec_repr(self) -> GmxReportRepr {
        (self.job_id@, self.cuk, input_repr(self.input), output_repr(self.output))
    }
}

impl Serialization for Report {
    type Repr = GmxReportRepr;

    open spec fn repr(&self) -> GmxReportRepr {
        self.spec_repr()
    }

    open spec fn serial(&self) -> Seq<char> {
        enc_gmx_report(self.spec_repr())
    }

    open spec fn deserial(s: Seq<char>) -> Option<GmxReportRepr> {
        match dec_gmx_report(s) {
            Some((v, r)) => if r.len() == 0 {
                Some(v)
            } else {
                None
            },
            None => None,
        }
    }

    fn ser_to(&self) -> (r: crate::traits::SerializedFormat) {
        let mut out = String::new();
        encode_str(&mut out, self.job_id.as_str());
        encode_cu(&mut out, &self.cuk);
        encode_gmx_input(&mut out, &self.input);
        encode_gmx_output(&mut out, &self.output);
        proof {
            assert(out@ =~= self.serial());
        }
        out
    }

    fn ser_from(content: &crate::traits::SerializedFormat) -> (r: Self) {
        let len = content.as_str().unicode_len();
        proof {
            assert(content@.subrange(0, content@.len() as int) =~= content@);
        }
        match decode_str(content.as_str(), 0) {
            Some((jid, p1)) => match decode_cu(content.as_str(), p1) {
                Some((cuk, p2)) => match decode_gmx_input(content.as_str(), p2) {
                    Some((inp, p3)) => match decode_gmx_output(content.as_str(), p3) {
                        Some((outp, p4)) => {
                            if p4 == len {
                                proof {
                                    assert(content@.subrange(p4 as int, content@.len() as int).len()
                                        == 0);
                                }
                                Report { job_id: jid, cuk, input: inp, output: outp }
                            } else {
                                proof {
                                    assert(content@.subrange(p4 as int, content@.len() as int).len()
                                        != 0);
                                    assert(false);
                                }
                                unreached()
                            }
                        },
                        None => {
                            proof {
                                assert(false);
                            }
                            unreached()
                        },
                    },
                    None => {
                        proof {
                            assert(false);
                        }
                        unreached()
                    },
                },
                None => {
                    proof {
                        assert(false);
                    }
                    unreached()
                },
            },
            None => {
                proof {
                    assert(false);
                }
                unreached()
            },
        }
    }

    proof fn lemma_round_trip(&self) {
        lemma_dec_enc_gmx_report(self.spec_repr(), Seq::empty());
        assert(self.serial() + Seq::empty() =~= self.serial());
    }
}

} // verus!
