use mcp_native_core::patterns::{first_word_of, is_csharp_declaration, starts_statement};
use mcp_native_core::matches_structural_line;

#[test]
fn detects_rust_fn() {
    assert!(matches_structural_line("rs", "fn execute() {"));
    assert!(matches_structural_line("rs", "pub fn new() -> Self {"));
    assert!(matches_structural_line("rs", "async fn execute(&self) {"));
    assert!(matches_structural_line("rs", "pub async fn run() {"));
}

#[test]
fn detects_rust_type_definitions() {
    assert!(matches_structural_line("rs", "struct JsonRpcRequest {"));
    assert!(matches_structural_line("rs", "pub struct McpServerState {"));
    assert!(matches_structural_line("rs", "enum Status {"));
    assert!(matches_structural_line("rs", "trait McpTool: Send + Sync {"));
    assert!(matches_structural_line("rs", "impl McpServerState {"));
}

#[test]
fn ignores_non_declaration_rust_lines() {
    assert!(!matches_structural_line("rs", "let x = 5;"));
    assert!(!matches_structural_line("rs", "// fn commented_out() {}"));
    assert!(!matches_structural_line("rs", "    self.crawl_directory(&path);"));
}

#[test]
fn detects_python_def_and_class() {
    assert!(matches_structural_line("py", "def handle_request():"));
    assert!(matches_structural_line("py", "class Server:"));
    assert!(matches_structural_line("py", "    def nested(self):"));
}

#[test]
fn ignores_non_declaration_python_lines() {
    assert!(!matches_structural_line("py", "x = 5"));
    assert!(!matches_structural_line("py", "return self.value"));
}

#[test]
fn detects_csharp_members() {
    assert!(matches_structural_line("cs", "void Run() {"));
    assert!(matches_structural_line("cs", "internal void Run() {"));
}

#[test]
fn returns_false_for_unknown_extensions() {
    assert!(!matches_structural_line("txt", "fn execute() {"));
    assert!(!matches_structural_line("", "class Foo {"));
}

#[test]
fn detects_csharp_types() {
    for line in [
        "class Foo {",
        "public class Foo : Bar {",
        "public sealed partial class Foo<T> where T : class",
        "internal static class Foo",
        "public interface IFoo {",
        "struct Point {",
        "public readonly struct Point",
        "enum Color { Red }",
        "private enum Color",
        "public record Person(string Name);",
    ] {
        assert!(matches_structural_line("cs", line), "{line}");
    }
}

#[test]
fn detects_csharp_methods_behind_any_modifiers() {
    for line in [
        "    public void Run() {",
        "    private int Count(int x)",
        "    protected override string ToString() => name;",
        "    protected internal virtual bool Try(out int x)",
        "    public static async Task<List<int>> LoadAsync(string path)",
        "    public Dictionary<string, int> Index(int[] xs) {",
        "    public (int, string) Pair(int x)",
        "    public foo Bar(int x)",
        "    async Task RunAsync()",
        "    void Run();",
        "    int[] Numbers(int n) {",
        "    string? Name(int n) {",
        "    List<int> All() {",
        "    T Pick<T>(T a, T b) {",
        "    void IDisposable.Dispose() {",
        "    public Foo(int x) : base(x) {",
        "    static Foo() {",
    ] {
        assert!(matches_structural_line("cs", line), "{line}");
    }
}

#[test]
fn detects_csharp_methods_of_any_return_type() {
    for line in [
        "float3 Normal(float3 p) {",
        "nint Size() {",
        "quaternion Slerp(quaternion a, quaternion b);",
        "foo Bar(int x)",
        "    internal foo Bar(int x)",
        "    async foo Bar(int x)",
        "    math.float3 Normal()",
        "    float3[] Normals()",
        "    float3? Normal()",
        "    foo<bar, baz> Pick<T>(T x)",
        "    ref int At(int i)",
        "    newtype Make(int x)",
        "    returned Make(int x)",
    ] {
        assert!(matches_structural_line("cs", line), "{line}");
    }
}

#[test]
fn first_words_tell_statements_from_methods() {
    assert_eq!(first_word_of("  return Go(x);"), "return");
    assert_eq!(first_word_of("\tfloat3 Normal()"), "float3");
    assert_eq!(first_word_of("newtype_2<x> Make()"), "newtype_2");
    assert_eq!(first_word_of("(x)"), "");
    assert_eq!(first_word_of(""), "");
    assert!(starts_statement("return") && starts_statement("else") && starts_statement("goto"));
    assert!(!starts_statement("float3") && !starts_statement("void") && !starts_statement(""));
    assert!(is_csharp_declaration(true, false, "return Go(x);"));
    assert!(is_csharp_declaration(false, true, "foo Bar(x)"));
    assert!(!is_csharp_declaration(false, true, "return Go(x);"));
    assert!(!is_csharp_declaration(false, false, "foo Bar(x)"));
}

#[test]
fn ignores_csharp_statements() {
    for line in [
        "        return Go(x);",
        "        return Go(",
        "        return this.Go(x);",
        "        await client.Go(x);",
        "        throw Helper.Make(x);",
        "        yield return Go(x);",
        "        else Go(x);",
        "        do Go(x); while (y);",
        "        case Point(1, 2):",
        "        select Go(x);",
        "        where Go(x)",
        "        > Go(x)",
        "        Go(x);",
        "        } else if (x) {",
        "        else if (x) {",
        "        await Go(x);",
        "        throw new Exception(x);",
        "        new Foo(x).Run();",
        "        foreach (var x in Go(y)) {",
        "        using (var x = Go()) {",
        "        if (Go(x)) {",
        "        while (Go(x)) {",
        "        var x = Go(y);",
        "        int x = Go(y);",
        "        Foo x = Go(y);",
        "        x.Go(y);",
        "    private readonly Foo foo = new Foo(1);",
        "    public int Size => Count(x);",
        "    public int Size { get { return Count(x); } }",
        "    public int Size;",
        "using System.Text;",
        "namespace Foo {",
        "    }",
        "}",
    ] {
        assert!(!matches_structural_line("cs", line), "{line}");
    }
}

#[test]
fn detects_rust_declarations_behind_any_qualifiers() {
    for line in [
        "pub(crate) fn f() {",
        "pub(in crate::a) struct S;",
        "unsafe fn f() {",
        "const fn f() {",
        "pub const unsafe fn f() {",
        "pub unsafe extern \"C\" fn f() {",
        "unsafe impl Send for S {}",
        "unsafe trait T {",
        "impl<T> From<T> for S<T> {",
        "impl !Send for S {}",
        "impl Trait for &S {",
    ] {
        assert!(matches_structural_line("rs", line), "{line}");
    }
    for line in ["const N: usize = 1;", "unsafe { f() }", "use a::b;", "implements(x);", "fnord(x);", "static S: T = f();"] {
        assert!(!matches_structural_line("rs", line), "{line}");
    }
}

#[test]
fn detects_async_python_functions() {
    assert!(matches_structural_line("py", "async def handle():"));
    assert!(matches_structural_line("py", "    async def handle(self):"));
    assert!(!matches_structural_line("py", "async with lock:"));
    assert!(!matches_structural_line("py", "default = 1"));
}
