//! The steps of a build: which layers they make, and under which names the layers are kept.
use crate::build::parser::{Instruction, InstructionView};
use crate::build::registry::{image_of, ImageReference, ImageView};
use crate::outside::{hex_text, sha256_digest, sha256_hex};
use crate::path::{join, joined};
use crate::snapshot::{data_dir, get_bases_dir, get_cache_dir};
use crate::text::{glue, glue3, law_trimmed_start_is, trim_start, trimmed_start, Class};
use vstd::prelude::*;
use vstd::utf8::encode_utf8;

verus! {

/// The texts one after the other.
pub open spec fn run_together(s: Seq<Seq<char>>) -> Seq<char>
    decreases s.len(),
{
    if s.len() == 0 {
        Seq::empty()
    } else {
        run_together(s.drop_last()) + s.last()
    }
}

/// The name of the layer that an instruction makes on top of others: a digest of where the others
/// lie and of the instruction.
pub open spec fn layer_name(lower: Seq<Seq<char>>, instruction: Seq<char>) -> Seq<char> {
    sha256_hex(encode_utf8(run_together(lower) + instruction))
}

/// The name of the layer that an instruction makes on top of others.
pub fn layer_key(lower: &Vec<String>, instruction: &str) -> (r: String)
    ensures
        r@ == layer_name(lower.deep_view(), instruction@),
        hex_text(r@, 64),
{
    let ghost s = lower.deep_view();
    let mut text = String::new();
    let mut i: usize = 0;
    proof {
        assert(s.take(0) =~= Seq::<Seq<char>>::empty());
    }
    while i < lower.len()
        invariant
            i <= lower@.len(),
            s == lower.deep_view(),
            text@ == run_together(s.take(i as int)),
        decreases lower@.len() - i,
    {
        proof {
            assert(s.take(i + 1).drop_last() =~= s.take(i as int));
            assert(s.take(i + 1).last() == lower@[i as int]@);
        }
        text.append(lower[i].as_str());
        i = i + 1;
    }
    proof {
        assert(s.take(s.len() as int) =~= s);
    }
    text.append(instruction);
    sha256_digest(text.as_str().as_bytes())
}

/// The name of the directory of a base image.
pub open spec fn base_name(image: ImageView) -> Seq<char> {
    "base-"@ + sha256_hex(
        encode_utf8(image.registry + "/"@ + image.repo + "/"@ + image.tag),
    )
}

/// The name of the directory of a base image.
pub fn base_key(image: &ImageReference) -> (r: String)
    ensures
        r@ == base_name(image.deep_view()),
{
    let start = glue3(image.registry.as_str(), "/", image.repo.as_str());
    let text = glue3(start.as_str(), "/", image.tag.as_str());
    let digest = sha256_digest(text.as_str().as_bytes());
    glue("base-", digest.as_str())
}

/// How far a build is: its layers, the bottom one first, the directory that commands run in, and the
/// variables that they see.
#[derive(Debug)]
pub struct BuildState {
    pub lower_dirs: Vec<String>,
    pub workdir: String,
    pub env: Vec<String>,
}

/// The mathematical value of a `BuildState`.
#[verifier::ext_equal]
pub struct BuildStateView {
    pub lower_dirs: Seq<Seq<char>>,
    pub workdir: Seq<char>,
    pub env: Seq<Seq<char>>,
}

impl DeepView for BuildState {
    type V = BuildStateView;

    open spec fn deep_view(&self) -> BuildStateView {
        BuildStateView {
            lower_dirs: self.lower_dirs.deep_view(),
            workdir: self.workdir@,
            env: self.env.deep_view(),
        }
    }
}

/// What an instruction asks for.
#[derive(Debug)]
pub enum StepPlan {
    /// The base image in this directory, pulled where it is not there yet.
    Base { image: ImageReference, dir: String },
    /// The layer in this directory, made by a command where it is not there yet.
    Run { command: String, layer: String },
    /// The layer in this directory, made where it is not there yet by copying `src` from the context
    /// to `dst`, a path from the root.
    Copy { src: String, dst: String, layer: String },
    /// Nothing but what is noted for the steps that follow.
    Note,
}

/// The mathematical value of a `StepPlan`.
#[verifier::ext_equal]
pub enum StepPlanView {
    Base { image: ImageView, dir: Seq<char> },
    Run { command: Seq<char>, layer: Seq<char> },
    Copy { src: Seq<char>, dst: Seq<char>, layer: Seq<char> },
    Note,
}

impl DeepView for StepPlan {
    type V = StepPlanView;

    open spec fn deep_view(&self) -> StepPlanView {
        match self {
            StepPlan::Base { image, dir } => StepPlanView::Base {
                image: image.deep_view(),
                dir: dir@,
            },
            StepPlan::Run { command, layer } => StepPlanView::Run {
                command: command@,
                layer: layer@,
            },
            StepPlan::Copy { src, dst, layer } => StepPlanView::Copy {
                src: src@,
                dst: dst@,
                layer: layer@,
            },
            StepPlan::Note => StepPlanView::Note,
        }
    }
}

/// The directory of the layer that an instruction makes.
pub open spec fn layer_dir(home: Seq<char>, state: BuildStateView, instruction: Seq<char>) -> Seq<char> {
    joined(joined(data_dir(home), "cache"@), layer_name(state.lower_dirs, instruction))
}

/// What a copy asks for.
pub open spec fn planned_copy(
    home: Seq<char>,
    state: BuildStateView,
    src: Seq<char>,
    dst: Seq<char>,
) -> StepPlanView {
    StepPlanView::Copy {
        src,
        dst: trimmed_start(dst, Class::Only('/')),
        layer: layer_dir(home, state, "COPY "@ + src + " "@ + dst),
    }
}

/// What an instruction asks for.
pub open spec fn planned_step(
    home: Seq<char>,
    mirror: Option<Seq<char>>,
    state: BuildStateView,
    instruction: InstructionView,
) -> StepPlanView {
    match instruction {
        InstructionView::From(reference) => {
            let image = image_of(reference, mirror);
            StepPlanView::Base {
                image,
                dir: joined(joined(data_dir(home), "bases"@), base_name(image)),
            }
        },
        InstructionView::Run(command) => StepPlanView::Run {
            command,
            layer: layer_dir(home, state, "RUN "@ + command),
        },
        InstructionView::Copy { src, dst } => planned_copy(home, state, src, dst),
        InstructionView::Add { src, dst } => planned_copy(home, state, src, dst),
        _ => StepPlanView::Note,
    }
}

/// What is noted for the steps that follow an instruction: a directory or a variable.
pub open spec fn noted(state: BuildStateView, instruction: InstructionView) -> BuildStateView {
    match instruction {
        InstructionView::Workdir(dir) => BuildStateView { workdir: dir, ..state },
        InstructionView::Env { key, value } => BuildStateView {
            env: state.env.push(key + "="@ + value),
            ..state
        },
        _ => state,
    }
}

impl BuildState {
    /// The start of a build: no layers, the root directory, no variables.
    pub fn new() -> (r: Self)
        ensures
            r.deep_view() == (BuildStateView {
                lower_dirs: Seq::empty(),
                workdir: "/"@,
                env: Seq::empty(),
            }),
    {
        let r = BuildState { lower_dirs: Vec::new(), workdir: "/".to_owned(), env: Vec::new() };
        proof {
            assert(r.lower_dirs.deep_view() =~= Seq::<Seq<char>>::empty());
            assert(r.env.deep_view() =~= Seq::<Seq<char>>::empty());
        }
        r
    }

    /// Puts a layer on top.
    pub fn add_layer(&mut self, dir: String)
        ensures
            final(self).deep_view() == (BuildStateView {
                lower_dirs: old(self).deep_view().lower_dirs.push(dir@),
                ..old(self).deep_view()
            }),
    {
        let ghost before = self.lower_dirs.deep_view();
        let ghost dv = dir@;
        self.lower_dirs.push(dir);
        proof {
            assert(self.lower_dirs.deep_view() =~= before.push(dv));
        }
    }

    /// The directory of the layer that an instruction makes.
    fn dir_of_layer(&self, home: &str, instruction: &str) -> (r: String)
        ensures
            r@ == layer_dir(home@, self.deep_view(), instruction@),
    {
        let key = layer_key(&self.lower_dirs, instruction);
        let cache = get_cache_dir(home);
        join(cache.as_str(), key.as_str())
    }

    /// Plans a copy.
    fn plan_copy(&self, home: &str, src: &str, dst: &str) -> (r: StepPlan)
        ensures
            r.deep_view() == planned_copy(home@, self.deep_view(), src@, dst@),
    {
        let start = glue3("COPY ", src, " ");
        let instruction = glue(start.as_str(), dst);
        StepPlan::Copy {
            src: src.to_owned(),
            dst: trim_start(dst, Class::Only('/')),
            layer: self.dir_of_layer(home, instruction.as_str()),
        }
    }

    /// Plans an instruction, and notes what it says for the steps that follow. `mirror` is the
    /// registry mirror that is set, if one is.
    pub fn plan(&mut self, home: &str, mirror: &Option<String>, instruction: &Instruction) -> (r: Result<
        StepPlan,
        crate::error::Error,
    >)
        ensures
            crate::error::outcome(r) == Ok::<StepPlanView, crate::error::ErrorView>(
                planned_step(
                    home@,
                    mirror.deep_view(),
                    old(self).deep_view(),
                    instruction.deep_view(),
                ),
            ),
            final(self).deep_view() == noted(old(self).deep_view(), instruction.deep_view()),
    {
        match instruction {
            Instruction::From(reference) => {
                let image = match ImageReference::parse(reference.as_str(), mirror) {
                    Ok(image) => image,
                    Err(e) => {
                        return Err(e);
                    },
                };
                let key = base_key(&image);
                let bases = get_bases_dir(home);
                Ok(StepPlan::Base { image, dir: join(bases.as_str(), key.as_str()) })
            },
            Instruction::Run(command) => {
                let text = glue("RUN ", command.as_str());
                Ok(
                    StepPlan::Run {
                        command: command.clone(),
                        layer: self.dir_of_layer(home, text.as_str()),
                    },
                )
            },
            Instruction::Copy { src, dst } => Ok(self.plan_copy(home, src.as_str(), dst.as_str())),
            Instruction::Add { src, dst } => Ok(self.plan_copy(home, src.as_str(), dst.as_str())),
            Instruction::Workdir(dir) => {
                self.workdir = dir.clone();
                Ok(StepPlan::Note)
            },
            Instruction::Env { key, value } => {
                let ghost before = self.env.deep_view();
                let entry = glue3(key.as_str(), "=", value.as_str());
                let ghost ev = entry@;
                self.env.push(entry);
                proof {
                    assert(self.env.deep_view() =~= before.push(ev));
                }
                Ok(StepPlan::Note)
            },
            _ => Ok(StepPlan::Note),
        }
    }
}

/// A layer that was made is found again by the same instruction on the same layers, and what an
/// instruction asks for does not depend on what was noted for commands.
pub proof fn law_layer_is_found_again(
    home: Seq<char>,
    mirror: Option<Seq<char>>,
    a: BuildStateView,
    b: BuildStateView,
    instruction: InstructionView,
)
    requires
        a.lower_dirs == b.lower_dirs,
    ensures
        planned_step(home, mirror, a, instruction) == planned_step(home, mirror, b, instruction),
        noted(a, instruction).lower_dirs == a.lower_dirs,
{
}

/// `ADD src dst` and `COPY src dst` ask for the same step: its source is the first operand, its
/// destination is the second one without the slashes at its start, and its layer goes by both.
pub proof fn law_add_is_copy(
    home: Seq<char>,
    mirror: Option<Seq<char>>,
    state: BuildStateView,
    src: Seq<char>,
    dst: Seq<char>,
    slashes: int,
)
    requires
        0 <= slashes <= dst.len(),
        forall|i: int| 0 <= i < slashes ==> #[trigger] dst[i] == '/',
        slashes < dst.len() ==> dst[slashes] != '/',
    ensures
        ({
            let step = planned_step(home, mirror, state, InstructionView::Copy { src, dst });
            &&& planned_step(home, mirror, state, InstructionView::Add { src, dst }) == step
            &&& step == (StepPlanView::Copy {
                src,
                dst: dst.skip(slashes),
                layer: joined(
                    joined(data_dir(home), "cache"@),
                    sha256_hex(
                        encode_utf8(
                            run_together(state.lower_dirs) + ("COPY "@ + src + " "@ + dst),
                        ),
                    ),
                ),
            })
        }),
{
    law_trimmed_start_is(dst, Class::Only('/'), slashes);
}

/// A command runs as it is written, and its layer goes by it and by the layers below.
pub proof fn law_command_is_kept(
    home: Seq<char>,
    mirror: Option<Seq<char>>,
    state: BuildStateView,
    command: Seq<char>,
)
    ensures
        planned_step(home, mirror, state, InstructionView::Run(command)) == (StepPlanView::Run {
            command,
            layer: joined(
                joined(data_dir(home), "cache"@),
                sha256_hex(encode_utf8(run_together(state.lower_dirs) + ("RUN "@ + command))),
            ),
        }),
{
}

/// The layers below count for the name of a layer one after the other, in order and whole.
pub proof fn law_lower_layers_count(lower: Seq<Seq<char>>, dir: Seq<char>, i: int, k: int)
    ensures
        run_together(Seq::<Seq<char>>::empty()).len() == 0,
        run_together(lower.push(dir)) == run_together(lower) + dir,
        0 <= i < lower.len() && 0 <= k < lower[i].len() ==> run_together(lower)[run_together(
            lower.take(i),
        ).len() + k] == lower[i][k] && run_together(lower.take(i)).len() + k < run_together(
            lower,
        ).len(),
    decreases lower.len(),
{
    assert(lower.push(dir).drop_last() =~= lower);
    if 0 <= i < lower.len() && 0 <= k < lower[i].len() {
        let shorter = lower.drop_last();
        if i == lower.len() - 1 {
            assert(lower.take(i) =~= shorter);
        } else {
            law_lower_layers_count(shorter, dir, i, k);
            assert(shorter.take(i) =~= lower.take(i));
        }
    }
}

/// `WORKDIR` sets the directory for the commands that follow, `ENV` adds one variable behind those
/// that are there, and no other instruction changes either; none of them changes the layers.
pub proof fn law_notes_last(state: BuildStateView, instruction: InstructionView)
    ensures
        ({
            let now = noted(state, instruction);
            &&& now.lower_dirs == state.lower_dirs
            &&& now.workdir == match instruction {
                InstructionView::Workdir(dir) => dir,
                _ => state.workdir,
            }
            &&& match instruction {
                InstructionView::Env { key, value } => {
                    &&& now.env.len() == state.env.len() + 1
                    &&& now.env.last() == key + "="@ + value
                    &&& now.env.drop_last() == state.env
                },
                _ => now.env == state.env,
            }
        }),
{
    if let InstructionView::Env { key, value } = instruction {
        assert(noted(state, instruction).env.drop_last() =~= state.env);
    }
}

/// `FROM` asks for the image that its reference names, in a directory that goes by the registry, the
/// repository and the tag.
pub proof fn law_base_goes_by_its_image(
    home: Seq<char>,
    mirror: Option<Seq<char>>,
    state: BuildStateView,
    reference: Seq<char>,
)
    ensures
        planned_step(home, mirror, state, InstructionView::From(reference)) matches StepPlanView::Base {
            image,
            dir,
        } && image == image_of(reference, mirror) && dir == joined(
            joined(data_dir(home), "bases"@),
            "base-"@ + sha256_hex(
                encode_utf8(image.registry + "/"@ + image.repo + "/"@ + image.tag),
            ),
        ),
{
}

} // verus!
