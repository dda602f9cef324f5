//! The compiler: lexing, parsing, code generation and project scaffolding.

pub mod codegen;
pub mod lexer;
pub mod parser;
pub mod project_builder;

use vstd::prelude::*;
use crate::utils::ast::AstNodeType;

verus! {

/// Why a compilation failed.
#[derive(Debug, Clone, Copy, PartialEq, Eq, Structural)]
pub enum CompileError {
    /// The source could not be turned into tokens or a program node.
    Parse,
    /// The generator refused a declaration; the payload says why.
    Generation(codegen::CodegenError),
}

/// Compiles source text into target source text: parse, resolve, emit.
/// Syntax errors inside declarations are recovered from during parsing, so
/// compilation fails only where the generator refuses a declaration; on
/// success the emitted text holds every alias and every function the
/// program declared, as `CodeGenerator::generate` promises. For a source
/// whose token stream is exactly one type declaration, compilation is owed
/// to succeed, and the output is owed the resolved alias line of that
/// declaration.
pub fn compile(source: &str, as_lib: bool) -> (r: Result<String, CompileError>)
    requires
        source@.len() < usize::MAX,
    ensures
        r matches Ok(out) ==> exists|p: crate::utils::ast::AstNode|
            p.node_type == AstNodeType::Program && codegen::gen_ok(p) && ({
                let cs = p.children@;
                let t = codegen::tables_upto(cs, cs.len() as int);
                forall|k: int|
                    0 <= k < cs.len() && (#[trigger] cs[k]).node_type == AstNodeType::FunctionDecl
                        ==> crate::strutil::spec_contains(out@, codegen::sig_line(cs[k], t.amap))
                        && crate::strutil::spec_contains(out@, codegen::template_stmt(cs[k]))
            }),
        parser::one_type_decl_program(parser::lex(source@), 0) ==> r is Ok,
        r matches Ok(out) ==> (parser::one_type_decl_program(parser::lex(source@), 0)
            ==> crate::strutil::spec_contains(
            out@,
            codegen::alias_line(
                parser::decl_name(parser::lex(source@), 0),
                codegen::spec_map_prim(parser::decl_alias_name(parser::lex(source@), 0)),
            ),
        )),
{
    let ast = match parser::parse_string(source) {
        Ok(p) => p,
        Err(_) => {
            return Err(CompileError::Parse);
        },
    };
    proof {
        let tv = parser::lex(source@);
        if parser::one_type_decl_program(tv, 0) {
            let cs = ast.children@;
            let c = cs[0];
            assert(codegen::decl_ok(c));
            assert(codegen::gen_ok(ast));
            assert(codegen::tables_upto(cs, 0) == codegen::empty_tables());
            assert(codegen::tables_upto(cs, 1) == codegen::spec_apply_type_decl(
                codegen::empty_tables(),
                c,
            ));
            let t = codegen::tables_upto(cs, cs.len() as int);
            assert(t == codegen::tables_upto(cs, 1));
            match parser::spec_type_decl_at(tv, 0) {
                Some(td) => {
                    codegen::lemma_type_info_alias_of_shape(c.children@[0], td.1);
                    assert(t.aliases.len() == 1);
                    assert(t.aliases[0].0 == parser::decl_name(tv, 0));
                    assert(t.aliases[0].1 == codegen::spec_map_prim(
                        parser::decl_alias_name(tv, 0),
                    ));
                },
                None => {
                    assert(false);
                },
            }
        }
    }
    let generator = codegen::CodeGenerator::new();
    match generator.generate(&ast, as_lib) {
        Ok(out) => {
            proof {
                assert(ast.node_type == AstNodeType::Program && codegen::gen_ok(ast));
            }
            Ok(out)
        },
        Err(e) => Err(CompileError::Generation(e)),
    }
}

} // verus!
