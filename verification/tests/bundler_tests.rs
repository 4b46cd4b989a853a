use dino::bundler::{run_bundle, MemoryLoader, ModuleLoader, Options};

fn fixture_loader() -> MemoryLoader {
    MemoryLoader {
        files: vec![
            (
                "fixtures/main.ts".to_string(),
                "import { execute } from \"./lib\";\nasync function main(){console.log(`Executing main`);console.log(await execute(\"world\"));}\nexport default main;\n"
                    .to_string(),
            ),
            (
                "fixtures/lib.ts".to_string(),
                "export async function execute(name){console.log(\"Executing lib\");return`Hello ${name}!`;}\n"
                    .to_string(),
            ),
        ],
    }
}

#[test]
fn bundle_ts_should_work() {
    let ret = run_bundle("fixtures/main.ts", &Default::default(), &fixture_loader()).unwrap();
    assert_eq!(
        ret,
        r#"(function(){async function execute(name){console.log("Executing lib");return`Hello ${name}!`;}async function main(){console.log(`Executing main`);console.log(await execute("world"));}return{default:main};})();"#
    );
}

#[test]
fn bundle_output_is_deterministic() {
    let a = run_bundle("fixtures/main.ts", &Options::default(), &fixture_loader()).unwrap();
    let b = run_bundle("fixtures/main.ts", &Options::default(), &fixture_loader()).unwrap();
    assert_eq!(a, b);
}

#[test]
fn unresolved_import_fails() {
    let loader = MemoryLoader {
        files: vec![(
            "main.ts".to_string(),
            "import { x } from \"./missing\";\nexport default x;\n".to_string(),
        )],
    };
    assert!(run_bundle("main.ts", &Options::default(), &loader).is_err());
}

#[test]
fn cyclic_module_graph_emits_each_module_once() {
    let loader = MemoryLoader {
        files: vec![
            (
                "a.ts".to_string(),
                "import { b } from \"./b\";\nexport function a(){return 1;}\nexport default a;\n"
                    .to_string(),
            ),
            (
                "b.ts".to_string(),
                "import { a } from \"./a\";\nexport function b(){return 2;}\n".to_string(),
            ),
        ],
    };
    let out = run_bundle("a.ts", &Options::default(), &loader).unwrap();
    assert_eq!(out.matches("function a()").count(), 1);
    assert_eq!(out.matches("function b()").count(), 1);
    assert!(out.starts_with("(function(){"));
    assert!(out.ends_with("})();"));
}

#[test]
fn memory_loader_resolves_relative_to_base() {
    let loader = fixture_loader();
    let p = loader.resolve(Some("fixtures/main.ts"), "./lib").unwrap();
    assert_eq!(p, "fixtures/lib.ts");
    let q = loader.resolve(None, "fixtures/main.ts").unwrap();
    assert_eq!(q, "fixtures/main.ts");
    let src = loader.load("fixtures/lib.ts").unwrap();
    assert!(src.contains("Executing lib"));
}

#[test]
fn imports_are_hoisted_before_the_importing_body() {
    let loader = MemoryLoader {
        files: vec![
            (
                "main.ts".to_string(),
                "function first(){return dep();}\nimport { dep } from \"./lib\";\nexport default first;\n"
                    .to_string(),
            ),
            (
                "lib.ts".to_string(),
                "export function dep(){return 7;}\n".to_string(),
            ),
        ],
    };
    let out = run_bundle("main.ts", &Options::default(), &loader).unwrap();
    assert_eq!(
        out,
        "(function(){function dep(){return 7;}function first(){return dep();}return{default:first};})();"
    );
}
