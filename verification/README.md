# revng_build

Build support for crates that link against the revng SDK, and the packaging
of a consumer binary with the SDK's libraries into a relocatable directory.

The library under `src/` holds the decisions, each with a contract that
Verus proves:

- `discovery`, `dependency`, `sdk`, `cxx`: where the SDK, LLVM and the SDK's
  dependencies are, what an install must contain, and the linker directives
  and C++ settings of a crate built against it;
- `provision`, `preflight`, `steps`: the cache an SDK is provisioned into,
  the check of the host before provisioning, and the build steps;
- `package`, `assembly`, `bundle`, `inspect`: the layout of a package, the
  order of its stages and what its summary reports, how the SDK's and
  LLVM's library trees merge into it, the system libraries bundled with it,
  what its ELF and Mach-O objects refer to (parsed with the `object` crate),
  and the checks that nothing in it refers outside it;
- `text`, `paths`, `os`: text and path handling with specifications.

The file system, the environment, processes, downloads and the command line
stay outside the library, in `app/`: it probes what exists, runs the tools,
and hands the results to the library as plain values. It also holds the C
declarations of the revng pipeline library.

The tests under `tests/` run the library on concrete values.
