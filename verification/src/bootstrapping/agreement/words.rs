//! The words of the two programs: the names of their variables and the
//! tags of the encoding are different words.

use vstd::prelude::*;

verus! {

/// A number that tells a word from the other words of the programs: made of
/// its length and its first three characters.
pub open spec fn code(word: Seq<char>) -> int {
    word.len() * 0x1000000 + (if word.len() > 0 {
        word[0] as int * 0x10000
    } else {
        0
    }) + (if word.len() > 1 {
        word[1] as int * 0x100
    } else {
        0
    }) + (if word.len() > 2 {
        word[2] as int
    } else {
        0
    })
}

/// The codes of the names of variables in the programs: no two are the same.
pub proof fn lemma_variable_codes()
    ensures
        code("same"@) == 74670445,
        code("m"@) == 23920640,
        code("n"@) == 23986176,
        code("member"@) == 107832685,
        code("ns"@) == 40792832,
        code("ms"@) == 40727296,
        code("map"@) == 57500016,
        code("f"@) == 23461888,
        code("xs"@) == 41448192,
        code("y"@) == 24707072,
        code("ys"@) == 41513728,
        code("br"@) == 40006144,
        code("c"@) == 23265280,
        code("ps"@) == 40923904,
        code("b"@) == 23199744,
        code("x"@) == 24641536,
        code("go"@) == 40333056,
        code("t"@) == 24379392,
        code("e"@) == 23396352,
        code("a"@) == 23134208,
        code("es"@) == 40203008,
        code("s"@) == 24313856,
        code("bs"@) == 40006400,
        code("yt"@) == 41513984,
        code("xt"@) == 41448448,
        code("lookup"@) == 107769711,
        code("vs"@) == 41317120,
        code("rest"@) == 74605939,
        code("k"@) == 23789568,
        code("bind"@) == 73558382,
        code("p"@) == 24117248,
        code("pt"@) == 40924160,
        code("w"@) == 24576000,
        code("wt"@) == 41382912,
        code("eval"@) == 73758305,
        code("g"@) == 23527424,
        code("h"@) == 23592960,
        code("r"@) == 24248320,
        code("cs"@) == 40071936,
{
    reveal_strlit("same");
    reveal_strlit("m");
    reveal_strlit("n");
    reveal_strlit("member");
    reveal_strlit("ns");
    reveal_strlit("ms");
    reveal_strlit("map");
    reveal_strlit("f");
    reveal_strlit("xs");
    reveal_strlit("y");
    reveal_strlit("ys");
    reveal_strlit("br");
    reveal_strlit("c");
    reveal_strlit("ps");
    reveal_strlit("b");
    reveal_strlit("x");
    reveal_strlit("go");
    reveal_strlit("t");
    reveal_strlit("e");
    reveal_strlit("a");
    reveal_strlit("es");
    reveal_strlit("s");
    reveal_strlit("bs");
    reveal_strlit("yt");
    reveal_strlit("xt");
    reveal_strlit("lookup");
    reveal_strlit("vs");
    reveal_strlit("rest");
    reveal_strlit("k");
    reveal_strlit("bind");
    reveal_strlit("p");
    reveal_strlit("pt");
    reveal_strlit("w");
    reveal_strlit("wt");
    reveal_strlit("eval");
    reveal_strlit("g");
    reveal_strlit("h");
    reveal_strlit("r");
    reveal_strlit("cs");
    assert("same"@.len() == 4 && "same"@[0] == 's' && "same"@[1] == 'a' && "same"@[2] == 'm');
    assert("m"@.len() == 1 && "m"@[0] == 'm');
    assert("n"@.len() == 1 && "n"@[0] == 'n');
    assert("member"@.len() == 6 && "member"@[0] == 'm' && "member"@[1] == 'e' && "member"@[2] == 'm');
    assert("ns"@.len() == 2 && "ns"@[0] == 'n' && "ns"@[1] == 's');
    assert("ms"@.len() == 2 && "ms"@[0] == 'm' && "ms"@[1] == 's');
    assert("map"@.len() == 3 && "map"@[0] == 'm' && "map"@[1] == 'a' && "map"@[2] == 'p');
    assert("f"@.len() == 1 && "f"@[0] == 'f');
    assert("xs"@.len() == 2 && "xs"@[0] == 'x' && "xs"@[1] == 's');
    assert("y"@.len() == 1 && "y"@[0] == 'y');
    assert("ys"@.len() == 2 && "ys"@[0] == 'y' && "ys"@[1] == 's');
    assert("br"@.len() == 2 && "br"@[0] == 'b' && "br"@[1] == 'r');
    assert("c"@.len() == 1 && "c"@[0] == 'c');
    assert("ps"@.len() == 2 && "ps"@[0] == 'p' && "ps"@[1] == 's');
    assert("b"@.len() == 1 && "b"@[0] == 'b');
    assert("x"@.len() == 1 && "x"@[0] == 'x');
    assert("go"@.len() == 2 && "go"@[0] == 'g' && "go"@[1] == 'o');
    assert("t"@.len() == 1 && "t"@[0] == 't');
    assert("e"@.len() == 1 && "e"@[0] == 'e');
    assert("a"@.len() == 1 && "a"@[0] == 'a');
    assert("es"@.len() == 2 && "es"@[0] == 'e' && "es"@[1] == 's');
    assert("s"@.len() == 1 && "s"@[0] == 's');
    assert("bs"@.len() == 2 && "bs"@[0] == 'b' && "bs"@[1] == 's');
    assert("yt"@.len() == 2 && "yt"@[0] == 'y' && "yt"@[1] == 't');
    assert("xt"@.len() == 2 && "xt"@[0] == 'x' && "xt"@[1] == 't');
    assert("lookup"@.len() == 6 && "lookup"@[0] == 'l' && "lookup"@[1] == 'o' && "lookup"@[2] == 'o');
    assert("vs"@.len() == 2 && "vs"@[0] == 'v' && "vs"@[1] == 's');
    assert("rest"@.len() == 4 && "rest"@[0] == 'r' && "rest"@[1] == 'e' && "rest"@[2] == 's');
    assert("k"@.len() == 1 && "k"@[0] == 'k');
    assert("bind"@.len() == 4 && "bind"@[0] == 'b' && "bind"@[1] == 'i' && "bind"@[2] == 'n');
    assert("p"@.len() == 1 && "p"@[0] == 'p');
    assert("pt"@.len() == 2 && "pt"@[0] == 'p' && "pt"@[1] == 't');
    assert("w"@.len() == 1 && "w"@[0] == 'w');
    assert("wt"@.len() == 2 && "wt"@[0] == 'w' && "wt"@[1] == 't');
    assert("eval"@.len() == 4 && "eval"@[0] == 'e' && "eval"@[1] == 'v' && "eval"@[2] == 'a');
    assert("g"@.len() == 1 && "g"@[0] == 'g');
    assert("h"@.len() == 1 && "h"@[0] == 'h');
    assert("r"@.len() == 1 && "r"@[0] == 'r');
    assert("cs"@.len() == 2 && "cs"@[0] == 'c' && "cs"@[1] == 's');
}

/// The codes of the tags of the encoding and of the programs: no two are the same,
/// and none is the code of a variable.
pub proof fn lemma_tag_codes()
    ensures
        code("Zero"@) == 73033074,
        code("Suc"@) == 55801187,
        code("Nil"@) == 55470444,
        code("Cons"@) == 71528302,
        code("True"@) == 72643189,
        code("False"@) == 88498540,
        code("Var"@) == 55992690,
        code("Const"@) == 88305518,
        code("Apply"@) == 88174704,
        code("Lambda"@) == 105668973,
        code("Rec"@) == 55731555,
        code("Case"@) == 71524723,
        code("Branch"@) == 105017953,
        code("Found"@) == 88502133,
        code("Missing"@) == 122513779,
{
    reveal_strlit("Zero");
    reveal_strlit("Suc");
    reveal_strlit("Nil");
    reveal_strlit("Cons");
    reveal_strlit("True");
    reveal_strlit("False");
    reveal_strlit("Var");
    reveal_strlit("Const");
    reveal_strlit("Apply");
    reveal_strlit("Lambda");
    reveal_strlit("Rec");
    reveal_strlit("Case");
    reveal_strlit("Branch");
    reveal_strlit("Found");
    reveal_strlit("Missing");
    assert("Zero"@.len() == 4 && "Zero"@[0] == 'Z' && "Zero"@[1] == 'e' && "Zero"@[2] == 'r');
    assert("Suc"@.len() == 3 && "Suc"@[0] == 'S' && "Suc"@[1] == 'u' && "Suc"@[2] == 'c');
    assert("Nil"@.len() == 3 && "Nil"@[0] == 'N' && "Nil"@[1] == 'i' && "Nil"@[2] == 'l');
    assert("Cons"@.len() == 4 && "Cons"@[0] == 'C' && "Cons"@[1] == 'o' && "Cons"@[2] == 'n');
    assert("True"@.len() == 4 && "True"@[0] == 'T' && "True"@[1] == 'r' && "True"@[2] == 'u');
    assert("False"@.len() == 5 && "False"@[0] == 'F' && "False"@[1] == 'a' && "False"@[2] == 'l');
    assert("Var"@.len() == 3 && "Var"@[0] == 'V' && "Var"@[1] == 'a' && "Var"@[2] == 'r');
    assert("Const"@.len() == 5 && "Const"@[0] == 'C' && "Const"@[1] == 'o' && "Const"@[2] == 'n');
    assert("Apply"@.len() == 5 && "Apply"@[0] == 'A' && "Apply"@[1] == 'p' && "Apply"@[2] == 'p');
    assert("Lambda"@.len() == 6 && "Lambda"@[0] == 'L' && "Lambda"@[1] == 'a' && "Lambda"@[2] == 'm');
    assert("Rec"@.len() == 3 && "Rec"@[0] == 'R' && "Rec"@[1] == 'e' && "Rec"@[2] == 'c');
    assert("Case"@.len() == 4 && "Case"@[0] == 'C' && "Case"@[1] == 'a' && "Case"@[2] == 's');
    assert("Branch"@.len() == 6 && "Branch"@[0] == 'B' && "Branch"@[1] == 'r' && "Branch"@[2] == 'a');
    assert("Found"@.len() == 5 && "Found"@[0] == 'F' && "Found"@[1] == 'o' && "Found"@[2] == 'u');
    assert("Missing"@.len() == 7 && "Missing"@[0] == 'M' && "Missing"@[1] == 'i' && "Missing"@[2] == 's');
}

/// The codes of all words of the programs.
pub proof fn lemma_codes()
    ensures
        code("same"@) == 74670445,
        code("m"@) == 23920640,
        code("n"@) == 23986176,
        code("member"@) == 107832685,
        code("ns"@) == 40792832,
        code("ms"@) == 40727296,
        code("map"@) == 57500016,
        code("f"@) == 23461888,
        code("xs"@) == 41448192,
        code("y"@) == 24707072,
        code("ys"@) == 41513728,
        code("br"@) == 40006144,
        code("c"@) == 23265280,
        code("ps"@) == 40923904,
        code("b"@) == 23199744,
        code("x"@) == 24641536,
        code("go"@) == 40333056,
        code("t"@) == 24379392,
        code("e"@) == 23396352,
        code("a"@) == 23134208,
        code("es"@) == 40203008,
        code("s"@) == 24313856,
        code("bs"@) == 40006400,
        code("yt"@) == 41513984,
        code("xt"@) == 41448448,
        code("lookup"@) == 107769711,
        code("vs"@) == 41317120,
        code("rest"@) == 74605939,
        code("k"@) == 23789568,
        code("bind"@) == 73558382,
        code("p"@) == 24117248,
        code("pt"@) == 40924160,
        code("w"@) == 24576000,
        code("wt"@) == 41382912,
        code("eval"@) == 73758305,
        code("g"@) == 23527424,
        code("h"@) == 23592960,
        code("r"@) == 24248320,
        code("cs"@) == 40071936,
        code("Zero"@) == 73033074,
        code("Suc"@) == 55801187,
        code("Nil"@) == 55470444,
        code("Cons"@) == 71528302,
        code("True"@) == 72643189,
        code("False"@) == 88498540,
        code("Var"@) == 55992690,
        code("Const"@) == 88305518,
        code("Apply"@) == 88174704,
        code("Lambda"@) == 105668973,
        code("Rec"@) == 55731555,
        code("Case"@) == 71524723,
        code("Branch"@) == 105017953,
        code("Found"@) == 88502133,
        code("Missing"@) == 122513779,
{
    lemma_variable_codes();
    lemma_tag_codes();
}

} // verus!
