# bencher

The driver of a benchmark of AWS Lambda cold and warm starts. It deploys a matrix of
functions (language, scenario, architecture, memory, variant), forces cold starts,
invokes each fresh sandbox once cold and then warm, and records what the platform
reports of every invocation.

- `src/` is the library: the matrix and its names, the filters, the counts, the
  judging and retrying of invocations, the reading of reports, the probes, the
  decisions of provisioning, deploying and tearing down, and what the benchmarked
  handlers compute. Every item is verified with Verus: contracts say what each
  function returns, and the functions whose names begin with `law_` state what holds
  of the library as a whole.
- `app/` is the program around it: the command line, the AWS clients, processes and
  files, and the arithmetic on measured times.
- `tests/` runs the library on concrete values.

What is not proved but relied on stands in `src/` behind small functions, each with a
comment that names the outside function and says what is claimed of it: regular
expressions, JSON, base64, zip archives, token verification, random identifiers and
the clock.

The run of a cell (`run`) and the series of samples of a probe (`sample`) are written
as decisions: a step takes in what happened and says what to do next. The program
performs it and comes back. So the rules of a measurement (a cold invocation shows a
cold marker, a warm one shows none, a spoiled cycle leaves no rows, a published
version is always deleted) are proved for every course of events.
