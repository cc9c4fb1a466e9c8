use pbuild::import::import_makefile;

const MAKEFILE: &str = "CC = gcc
CFLAGS := -O2 $(EXTRA)
DATE = $(shell date)
X += y
.PHONY: all clean
all: app
app: main.o util.o
\t$(CC) -o app main.o util.o
\t@echo done
main.o: main.c
\t$(CC) -c main.c
%.o: %.c
\tcc -c $<
clean:
\trm -rf *.o app && echo ok
ifeq ($(X),1)
sub:
\t$(MAKE) -C sub
";

#[test]
fn makefile_converted_to_build_file() {
    let (text, _) = import_makefile(MAKEFILE);
    let expected = "# pbuild.toml — generated by `pbuild import`\n# Review and adjust before use.\n\n\
[config]\ndefault = \"app\"\n\n\
[vars]\nCC = \"gcc\"\nCFLAGS = \"-O2 {{EXTRA}}\"\n\n\
[all]\ntype    = \"task\"\ndeps    = [\"app\"]\ncommand = [\"true\"]\n\n\
[app]\ntype    = \"task\"\ndeps    = [\"main.o\"]\ncommands = [\n    [\"{{CC}}\", \"-o\", \"app\", \"main.o\", \"util.o\"],\n    [\"@echo\", \"done\"],\n]\n\n\
[\"main.o\"]\ncommand = [\"{{CC}}\", \"-c\", \"main.c\"]\n\n\
[clean]\ntype    = \"task\"\ncommand = [\"rm -rf *.o app && echo ok\"]\n\n\
[sub]\ntype    = \"task\"\n# no commands — add a command field\ncommand = [\"echo\", \"TODO\"]\n\n";
    assert_eq!(text, expected);
}

#[test]
fn makefile_warnings_name_lines() {
    let (_, warnings) = import_makefile(MAKEFILE);
    assert_eq!(
        warnings,
        [
            "line 3: variable `DATE ` uses $(shell ...) — set it manually or use a [vars] entry",
            "line 12: skipped pattern rule `%.o` — convert manually",
            "line 16: conditional `ifeq ($(X),1)` — conditional logic cannot be converted; review manually",
            "line 18: skipped recursive $(MAKE) call — convert manually",
        ]
    );
}

#[test]
fn empty_makefile_defaults_to_build() {
    let (text, warnings) = import_makefile("");
    assert_eq!(
        text,
        "# pbuild.toml — generated by `pbuild import`\n# Review and adjust before use.\n\n[config]\ndefault = \"build\"\n\n"
    );
    assert!(warnings.is_empty());
}

#[test]
fn quotes_in_recipes_are_escaped() {
    let (text, _) = import_makefile("all:\n\techo 'say \"hi\"'\n");
    assert!(text.contains("[all]\ntype    = \"task\"\ncommand = [\"echo\", \"say \\\"hi\\\"\"]\n"), "{text}");
}

#[test]
fn all_and_help_are_not_the_default() {
    let (text, _) = import_makefile("help:\n\techo help\nall:\n\techo all\n");
    assert!(text.contains("default = \"help\""), "{text}");
    let (text, _) = import_makefile("help:\n\techo h\nall: x\nx:\n\ttrue\n");
    assert!(text.contains("default = \"x\""), "{text}");
}

#[test]
fn phony_targets_are_not_the_default() {
    let (text, _) = import_makefile(".PHONY: clean\nclean:\n\trm -f app.o\napp.o: a.c\n\tcc -c a.c\n");
    assert!(text.contains("default = \"app.o\""), "{text}");
    let (text, _) = import_makefile(".PHONY: lint test\nlint:\n\ttrue\ntest:\n\ttrue\n");
    assert!(text.contains("default = \"lint\""), "{text}");
}
