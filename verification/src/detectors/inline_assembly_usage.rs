//! Inline assembly: every assembly block inside a function is reported.

use vstd::prelude::*;
use crate::ast::{AsmBlock, Module};
use crate::report::{resolve_line, Error, FindingView, Project, Severity, SourceFile};
use crate::visitor::{follows, unchanged, AstVisitor, Context, Node, Outcome, Scope};

verus! {

/// Reports the use of inline assembly.
#[derive(Debug)]
pub struct InlineAssemblyUsageVisitor;

/// What a finding says of an assembly block in the function `fn_name`, which
/// stands in an implementation of `impl_ty` if that is given.
pub open spec fn inline_assembly_message(impl_ty: Option<Seq<char>>, fn_name: Seq<char>) -> Seq<
    char,
> {
    "The `"@ + (match impl_ty {
        Some(ty) => ty + "::"@ + fn_name,
        None => fn_name,
    }) + "` function contains inline assembly usage."@
}

/// What becomes of an assembly block: inside a function, a finding of medium
/// severity at the line of the block, or the error of looking that line up;
/// outside any function, nothing.
pub open spec fn asm_block_visited<'a>(
    files: Seq<SourceFile>,
    module: &'a Module,
    scope: Scope<'a>,
    asm_block: &'a AsmBlock,
) -> Outcome<()> {
    match scope.item_fn {
        Some(item_fn) => match resolve_line(files, module.path@, asm_block.span) {
            Ok(line) => Outcome {
                state: (),
                findings: seq![
                    FindingView {
                        path: module.path@,
                        line,
                        severity: Severity::Medium,
                        message: inline_assembly_message(
                            match scope.item_impl {
                                Some(item_impl) => Some(item_impl.ty@),
                                None => None,
                            },
                            item_fn.fn_signature.name.name@,
                        ),
                    },
                ],
                error: None,
            },
            Err(error) => Outcome { state: (), findings: Seq::empty(), error: Some(error) },
        },
        None => unchanged(()),
    }
}

impl Default for InlineAssemblyUsageVisitor {
    fn default() -> Self {
        InlineAssemblyUsageVisitor
    }
}

impl InlineAssemblyUsageVisitor {
    /// Reports an assembly block.
    pub fn visit_asm_block<'a>(
        &mut self,
        context: &Context<'a>,
        asm_block: &'a AsmBlock,
        project: &mut Project,
    ) -> (result: Result<(), Error>)
        ensures
            follows(
                asm_block_visited(old(project).files@, context.module, context@, asm_block),
                (),
                *old(project),
                *final(project),
                result,
            ),
    {
        let item_fn = match context.item_fn {
            Some(item_fn) => item_fn,
            None => {
                assert(project.report@ + Seq::<FindingView>::empty() =~= project.report@);
                return Ok(());
            },
        };
        let line = match project.span_to_line(context.module.path.as_str(), &asm_block.span) {
            Ok(line) => line,
            Err(error) => {
                assert(project.report@ + Seq::<FindingView>::empty() =~= project.report@);
                return Err(error);
            },
        };
        let mut message = String::from_str("The `");
        if let Some(item_impl) = context.item_impl {
            message.append(item_impl.ty.as_str());
            message.append("::");
        }
        message.append(item_fn.fn_signature.name.name.as_str());
        message.append("` function contains inline assembly usage.");
        proof {
            let expected = inline_assembly_message(
                match context@.item_impl {
                    Some(item_impl) => Some(item_impl.ty@),
                    None => None,
                },
                item_fn.fn_signature.name.name@,
            );
            assert(message@ =~= expected);
        }
        project.report.add_entry(context.module.path.as_str(), line, Severity::Medium, message);
        proof {
            let outcome = asm_block_visited(
                old(project).files@,
                context.module,
                context@,
                asm_block,
            );
            assert(outcome.findings.len() == 1);
            assert(project.report@ =~= old(project).report@ + outcome.findings);
        }
        Ok(())
    }
}

impl AstVisitor for InlineAssemblyUsageVisitor {
    type State = ();

    open spec fn wf(&self) -> bool {
        true
    }

    open spec fn state(&self) -> () {
        ()
    }

    open spec fn module_entered(state: (), files: Seq<SourceFile>, module: &Module) -> Outcome<()> {
        unchanged(())
    }

    open spec fn visited<'a>(
        state: (),
        files: Seq<SourceFile>,
        module: &'a Module,
        scope: Scope<'a>,
        node: Node<'a>,
    ) -> Outcome<()> {
        match node {
            Node::AsmBlock(asm_block) => asm_block_visited(files, module, scope, asm_block),
            _ => unchanged(()),
        }
    }

    open spec fn module_left(state: (), files: Seq<SourceFile>, module: &Module) -> Outcome<()> {
        unchanged(())
    }

    fn visit_module(&mut self, module: &Module, project: &mut Project) -> (result: Result<
        (),
        Error,
    >) {
        assert(project.report@ + Seq::<FindingView>::empty() =~= project.report@);
        Ok(())
    }

    fn visit<'a>(&mut self, context: &Context<'a>, node: &Node<'a>, project: &mut Project) -> (result:
        Result<(), Error>) {
        match node {
            Node::AsmBlock(asm_block) => self.visit_asm_block(context, asm_block, project),
            _ => {
                assert(project.report@ + Seq::<FindingView>::empty() =~= project.report@);
                Ok(())
            },
        }
    }

    fn leave_module(&mut self, module: &Module, project: &mut Project) -> (result: Result<
        (),
        Error,
    >) {
        assert(project.report@ + Seq::<FindingView>::empty() =~= project.report@);
        Ok(())
    }
}

} // verus!
