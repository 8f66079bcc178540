//! End-to-end tests: compile chasm programs and run the produced
//! WebAssembly modules under an interpreter, checking the printed
//! output and the rendered memory.

use chasm_rs::compile;

/// Run a compiled module, collecting everything the host print
/// function receives and the first 10000 bytes of the linear memory.
fn run_binary(binary: &[u8]) -> (String, Vec<u8>) {
    let engine = wasmi::Engine::default();
    let module = wasmi::Module::new(&engine, binary).expect("module must validate");
    let mut store: wasmi::Store<String> = wasmi::Store::new(&engine, String::new());
    let mut linker: wasmi::Linker<String> = wasmi::Linker::new(&engine);
    let memory = wasmi::Memory::new(&mut store, wasmi::MemoryType::new(1, None)).unwrap();
    linker.define("env", "memory", memory).unwrap();
    linker
        .func_wrap("env", "print", |mut caller: wasmi::Caller<'_, String>, x: f32| {
            let line = format!("{}\n", x);
            caller.data_mut().push_str(&line);
        })
        .unwrap();
    let instance = linker.instantiate_and_start(&mut store, &module).unwrap();
    let main = instance.get_typed_func::<(), ()>(&store, "main").unwrap();
    main.call(&mut store, ()).unwrap();
    let mut data = memory.data(&store).to_vec();
    data.resize(100 * 100, 0);
    data.truncate(100 * 100);
    let out = store.data().clone();
    (out, data)
}

fn check_output(source: &str, expected: &str) {
    let binary = compile(source).expect("program must compile");
    let (out, _) = run_binary(&binary);
    assert_eq!(out, expected);
}

#[test]
fn print_12() {
    check_output("print 12", "12\n");
}

#[test]
fn print_n8() {
    check_output("print -8", "-8\n");
}

#[test]
fn mult_print() {
    check_output(
        "print 12 print -8 print 44 print 0.1 print -1e-02",
        "12\n-8\n44\n0.1\n-0.01\n",
    );
}

#[test]
fn print_1p1() {
    check_output("print (1 + 1)", "2\n");
}

#[test]
fn print_expr3() {
    check_output("print ((3*2) - (21/7))", "3\n");
}

#[test]
fn print_var_a() {
    check_output("var a = 12 print a", "12\n");
}

#[test]
fn print_var_b() {
    check_output("var b = (46*72) b = (b/46) print b", "72\n");
}

#[test]
fn fibonacci() {
    check_output(
        "
     var a = 0
     var b = 1
     var i = 0
     while (i < 10)
        print a
        b = (a + b)
        a = (b - a)
        i = (i + 1)
     endwhile",
        "0\n1\n1\n2\n3\n5\n8\n13\n21\n34\n",
    );
}

#[test]
fn if_block() {
    check_output("if (1==1) print 1 endif print 2", "1\n2\n");
}

#[test]
fn if_block_no() {
    check_output("if (1==2) print 1 endif print 2", "2\n");
}

#[test]
fn if_else_block() {
    check_output("if (1==1) print 1 else print 3 endif print 2", "1\n2\n");
}

#[test]
fn if_else_block_no() {
    check_output("if (1==2) print 1 else print 3 endif print 2", "3\n2\n");
}

#[test]
fn proc_call() {
    check_output("proc a(x) print x endproc a(10)", "10\n");
}

#[test]
fn proc_call3() {
    check_output("proc func(a,b,c) print (a+(b+c)) endproc func(5,2,7)", "14\n");
}

#[test]
fn proc_call_local() {
    check_output(
        "proc func(a,b,c) x = 14 print ((a+(b+c))/x) endproc a = 5 m = 2 n = 7 func(a,m,n)",
        "1\n",
    );
}

#[test]
fn recur_call() {
    check_output(
        "
     proc A () B() endproc
     proc B () print 5 endproc
     A()",
        "5\n",
    );
}

#[test]
fn recur_call3() {
    check_output(
        "
     proc A (x) B(x, 2) endproc
     proc B (x, y) C(x, y, 4) endproc
     proc C (x, y, z) print ((x+y)+z) endproc
     A(1)",
        "7\n",
    );
}

#[test]
fn setpixel_side_effect() {
    check_output(
        "print 0 setpixel(0, 1, 2) print x print y print color",
        "0\n0\n1\n2\n",
    );
}

#[test]
fn setpixel_writes_memory() {
    let binary = compile("setpixel(3, 2, 9)").expect("program must compile");
    let (_, art) = run_binary(&binary);
    assert_eq!(art[2 * 100 + 3], 9);
}

#[test]
fn mandelbrot() {
    let source = "
var y  = 0
while (y < 100)
  y = (y + 1)
  var x  = 0
  while (x < 100)
    x = (x + 1)

    var e = ((y / 50) - 1.5)
    var f = ((x / 50) - 1)

    var a = 0
    var b = 0
    var i = 0
    var j = 0
    var c = 0

    while ((((i * i) + (j * j)) < 4) && (c < 255))
      i = (((a * a) - (b * b)) + e)
      j = (((2 * a) * b) + f)
      a = i
      b = j
      c = (c + 1)
    endwhile
    setpixel (x, y, c)
  endwhile
endwhile";
    let binary = compile(source).expect("program must compile");
    let (_, output) = run_binary(&binary);
    let hash = blake3::hash(&output);
    assert_eq!(&hash.to_hex()[0..16], "28ad088dd153090f");
}

#[test]
fn compile_is_deterministic() {
    let source = "proc a(x) print x endproc a(10) print (1 + 2)";
    let first = compile(source).expect("program must compile");
    let second = compile(source).expect("program must compile");
    assert_eq!(first, second);
}

#[test]
fn exact_module_bytes() {
    let binary = compile("print 12").expect("program must compile");
    let expected: Vec<u8> = vec![
        0x00, 0x61, 0x73, 0x6D, 0x01, 0x00, 0x00, 0x00, // magic, version
        0x01, 0x08, 0x02, 0x60, 0x01, 0x7D, 0x00, 0x60, 0x00, 0x00, // type section
        0x02, 0x1B, 0x02, 0x03, 0x65, 0x6E, 0x76, 0x05, 0x70, 0x72, 0x69, 0x6E, 0x74, 0x00,
        0x00, 0x03, 0x65, 0x6E, 0x76, 0x06, 0x6D, 0x65, 0x6D, 0x6F, 0x72, 0x79, 0x02, 0x00,
        0x01, // import section
        0x03, 0x02, 0x01, 0x01, // function section
        0x07, 0x08, 0x01, 0x04, 0x6D, 0x61, 0x69, 0x6E, 0x00, 0x01, // export section
        0x0A, 0x0D, 0x01, 0x0B, 0x01, 0x00, 0x7D, 0x43, 0x00, 0x00, 0x40, 0x41, 0x10, 0x00,
        0x0B, // code section
    ];
    assert_eq!(binary, expected);
}

#[test]
fn number_bits_match_ieee() {
    // the verified integer conversion must agree with the host float
    for text in [
        "0", "1", "12", "100", "255", "0.1", "1.5", "0.5", "3.25", "12.75", "1e-02", "5e02",
        "1234567", "0.000001", "9.75e-03", "33554431", "4294967295",
    ] {
        let got = chasm_rs::number::number_bits(text.as_bytes())
            .unwrap_or_else(|| panic!("{} must parse", text));
        let want = text.parse::<f32>().unwrap().to_bits();
        assert_eq!(got, want, "bits differ for {}", text);
    }
}

#[test]
fn number_bits_extremes() {
    // overflow to infinity, underflow to zero, and signs
    let inf = chasm_rs::number::number_bits(b"9e99").unwrap();
    assert_eq!(inf, f32::INFINITY.to_bits());
    let ninf = chasm_rs::number::number_bits(b"-9e99").unwrap();
    assert_eq!(ninf, f32::NEG_INFINITY.to_bits());
    let zero = chasm_rs::number::number_bits(b"1e-99").unwrap();
    assert_eq!(zero, 0u32);
    let nzero = chasm_rs::number::number_bits(b"-0").unwrap();
    assert_eq!(nzero, (-0.0f32).to_bits());
    let sub = chasm_rs::number::number_bits(b"1.4e-45").unwrap();
    assert_eq!(sub, "1.4e-45".parse::<f32>().unwrap().to_bits());
    assert_eq!(chasm_rs::number::number_bits(b"1.2.3"), None);
    assert_eq!(chasm_rs::number::number_bits(b"."), None);
    assert_eq!(chasm_rs::number::number_bits(b"-."), None);
}

#[test]
fn duplicate_parameter_names_compile() {
    // both parameters occupy slots; reads of the name reach the first
    let binary = compile("proc f(a,a) print a endproc f(1,2)").expect("program must compile");
    let (out, _) = run_binary(&binary);
    assert_eq!(out, "1\n");
}

#[test]
fn long_literal_rounds_like_ieee() {
    let text = "3.141592653589793238462643";
    let got = chasm_rs::number::number_bits(text.as_bytes()).unwrap();
    assert_eq!(got, text.parse::<f32>().unwrap().to_bits());
    let text2 = "0.000000000000000000000000123456789012345678901";
    let got2 = chasm_rs::number::number_bits(text2.as_bytes()).unwrap();
    assert_eq!(got2, text2.parse::<f32>().unwrap().to_bits());
}
